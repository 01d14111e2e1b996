use std::sync::atomic::{AtomicUsize, Ordering};

use thanos::balance::{all_below, holds_server, least_loaded, round_robin, with_server, without_server};
use thanos::config::Strategy;
use thanos::proxy::{counts_connections, failure_step, THRESHOLD};
use thanos::{Backend, Server};

#[test]
fn adding_a_server() {
    assert_eq!(with_server(&vec![0, 2], 1), Some(vec![0, 2, 1]));
    assert_eq!(with_server(&vec![0, 2], 2), None);
    assert_eq!(with_server(&vec![], 5), Some(vec![5]));
}

#[test]
fn removing_a_server() {
    assert_eq!(without_server(&vec![0, 1, 2, 1], 1), vec![0, 2]);
    assert_eq!(without_server(&vec![0, 2], 1), vec![0, 2]);
    assert_eq!(without_server(&vec![], 1), Vec::<usize>::new());
}

#[test]
fn removing_undoes_adding() {
    let list = vec![3, 0, 4];
    let added = with_server(&list, 7).unwrap();
    assert!(holds_server(&added, 7));
    assert_eq!(with_server(&added, 7), None);
    assert_eq!(without_server(&added, 7), list);
}

#[test]
fn round_robin_visits_every_server() {
    let list = vec![4, 1, 3];
    let picks: Vec<usize> = (0..6).map(|c| round_robin(&list, c).unwrap()).collect();
    assert_eq!(picks, vec![4, 1, 3, 4, 1, 3]);
    assert_eq!(round_robin(&list, 10), Some(1));
    assert_eq!(round_robin(&vec![], 3), None);
}

#[test]
fn least_loaded_takes_first_minimum() {
    assert_eq!(least_loaded(&vec![5, 6, 7], &vec![3, 1, 1]), Some(6));
    assert_eq!(least_loaded(&vec![2], &vec![9]), Some(2));
    assert_eq!(least_loaded(&vec![0, 1], &vec![0, 0]), Some(0));
    assert_eq!(least_loaded(&vec![], &vec![]), None);
}

#[test]
fn backend_from_addresses() {
    let b = Backend::from_addrs(vec!["a:1".to_string(), "b:2".to_string(), "c:3".to_string()]);
    assert_eq!(b.servers.len(), 3);
    assert_eq!(b.servers[1].addr, "b:2");
    for i in 0..3 {
        assert!(b.contains(&i));
    }
    assert!(!b.contains(&3));
}

#[test]
fn backend_from_servers() {
    let b = Backend::from_servers(vec![Server::new(10u32), Server::new(20u32)]);
    assert_eq!(b.servers[0].addr, 10);
    assert_eq!(b.servers[1].addr, 20);
    assert!(b.contains(&0) && b.contains(&1));
}

#[test]
fn backend_add_and_remove() {
    let b = Backend::from_addrs(vec![1u8, 2, 3]);
    b.rem_server(1);
    assert!(!b.contains(&1));
    let counter = AtomicUsize::new(0);
    let picks: Vec<usize> = (0..4).map(|_| b.next(&counter).unwrap()).collect();
    assert_eq!(picks, vec![0, 2, 0, 2]);
    b.add_server(1);
    b.add_server(1);
    assert!(b.contains(&1));
    let picks: Vec<usize> = (0..3).map(|_| b.next(&counter).unwrap()).collect();
    assert_eq!(picks, vec![2, 1, 0]);
}

#[test]
fn backend_without_active_servers() {
    let b = Backend::from_addrs(vec![1u8]);
    b.rem_server(0);
    let counter = AtomicUsize::new(0);
    assert_eq!(b.next(&counter), None);
    assert_eq!(b.select_least_conn_server(), None);
}

#[test]
fn backend_least_connections() {
    let b = Backend::from_addrs(vec![1u8, 2, 3]);
    b.servers[0].ttlcn.store(5, Ordering::Relaxed);
    b.servers[1].ttlcn.store(2, Ordering::Relaxed);
    b.servers[2].ttlcn.store(2, Ordering::Relaxed);
    assert_eq!(b.select_least_conn_server(), Some(1));
    b.rem_server(1);
    assert_eq!(b.select_least_conn_server(), Some(2));
}

#[test]
fn failures_reach_the_threshold() {
    assert_eq!(THRESHOLD, 3);
    assert_eq!(failure_step(0, true), None);
    assert_eq!(failure_step(2, true), None);
    assert_eq!(failure_step(2, false), None);
    assert_eq!(failure_step(3, true), Some(true));
    assert_eq!(failure_step(3, false), Some(false));
    assert_eq!(failure_step(4, false), Some(false));
    assert_eq!(failure_step(usize::MAX, true), Some(true));
}

#[test]
fn connections_counted_for_least_connections() {
    assert!(counts_connections(Strategy::LeastConnections));
    assert!(!counts_connections(Strategy::RoundRobin));
}

#[test]
fn indices_below_a_count() {
    assert!(all_below(&vec![0, 2, 1], 3));
    assert!(!all_below(&vec![0, 3], 3));
    assert!(all_below(&vec![], 0));
}
