//! Pipes: byte order, blocking and end-of-data decisions, and the two
//! classic multi-process workloads driven over pipe pairs.

use rvcore::pipe::{Pipe, PipeRead};

fn read_all(p: &mut Pipe, n: usize) -> Vec<u8> {
    match p.read(n) {
        PipeRead::Bytes(v) => v,
        _ => Vec::new(),
    }
}

#[test]
fn bytes_come_out_in_order() {
    let mut p = Pipe::new();
    assert_eq!(p.write(&vec![1, 2, 3]).unwrap(), 3);
    assert_eq!(p.write(&vec![4, 5]).unwrap(), 2);
    assert_eq!(read_all(&mut p, 4), vec![1, 2, 3, 4]);
    assert_eq!(read_all(&mut p, 4), vec![5]);
}

#[test]
fn empty_pipe_blocks_reader_while_writer_lives() {
    let mut p = Pipe::new();
    assert!(matches!(p.read(1), PipeRead::Blocked));
    p.close_write();
    assert!(matches!(p.read(1), PipeRead::Eof));
}

#[test]
fn full_pipe_takes_a_partial_write() {
    let mut p = Pipe::new();
    let big = vec![7u8; 600];
    // Only the capacity fits; the writer would block for the rest.
    assert_eq!(p.write(&big).unwrap(), 512);
    assert_eq!(p.write(&vec![8]).unwrap(), 0);
    let drained = read_all(&mut p, 512);
    assert_eq!(drained.len(), 512);
    assert!(drained.iter().all(|&b| b == 7));
    assert_eq!(p.write(&vec![8]).unwrap(), 1);
}

#[test]
fn write_to_closed_read_end_fails() {
    let mut p = Pipe::new();
    p.close_read();
    assert!(p.write(&vec![1]).is_err());
}

#[test]
fn ping_pong_between_parent_and_child() {
    // The parent sends a greeting down one pipe; the child reads it,
    // answers on the other pipe and finishes; the parent reads the answer.
    let mut pipe_to_child = Pipe::new();
    let mut pipe_to_parent = Pipe::new();
    assert_eq!(pipe_to_child.write(&b"PARENT".to_vec()).unwrap(), 6);
    // Child side.
    let got = read_all(&mut pipe_to_child, 64);
    assert_eq!(got, b"PARENT".to_vec());
    assert_eq!(pipe_to_parent.write(&b"CHILD".to_vec()).unwrap(), 5);
    pipe_to_parent.close_write();
    // Parent side.
    let answer = read_all(&mut pipe_to_parent, 64);
    assert_eq!(answer, b"CHILD".to_vec());
    assert!(matches!(pipe_to_parent.read(1), PipeRead::Eof));
}

#[test]
fn prime_sieve_over_pipes() {
    // Each stage reads its first number, keeps it as a prime, and
    // forwards only the numbers it does not divide to the next stage.
    let mut feed = Pipe::new();
    for n in 2u8..=34 {
        assert_eq!(feed.write(&vec![n]).unwrap(), 1);
    }
    feed.close_write();
    let mut primes: Vec<u8> = Vec::new();
    let mut stage = feed;
    loop {
        let first = match stage.read(1) {
            PipeRead::Bytes(v) => v[0],
            _ => break,
        };
        primes.push(first);
        let mut next = Pipe::new();
        loop {
            match stage.read(1) {
                PipeRead::Bytes(v) => {
                    if v[0] % first != 0 {
                        assert_eq!(next.write(&vec![v[0]]).unwrap(), 1);
                    }
                },
                _ => break,
            }
        }
        next.close_write();
        stage = next;
    }
    assert_eq!(primes, vec![2, 3, 5, 7, 11, 13, 17, 19, 23, 29, 31]);
}
