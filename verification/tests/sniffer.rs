use netlab::sniffer::{scan_ports, thread_scans, ArgsError, Arguments};

fn args(list: &[&str]) -> Vec<String> {
    list.iter().map(|s| s.to_string()).collect()
}

fn ip(s: &String) -> Option<String> {
    let parts: Vec<&str> = s.split('.').collect();
    if parts.len() == 4 && parts.iter().all(|p| p.parse::<u8>().is_ok()) {
        Some(s.clone())
    } else {
        None
    }
}

fn read(list: &[&str]) -> Result<Arguments<String>, ArgsError> {
    Arguments::new(&args(list), ip)
}

#[test]
fn usage_when_no_arguments_or_help() {
    assert_eq!(read(&["ps"]).unwrap_err(), ArgsError::Usage);
    assert_eq!(read(&["ps", "1.2.3.4", "-h"]).unwrap_err(), ArgsError::Usage);
    assert_eq!(read(&["ps", "-t", "-h"]).unwrap_err(), ArgsError::Usage);
}

#[test]
fn defaults() {
    let a = read(&["ps", "127.0.0.1"]).unwrap();
    assert_eq!(a.ip, "127.0.0.1");
    assert_eq!(a.thread_num, 4);
    assert_eq!(a.start_port, 1);
    assert_eq!(a.end_port, 65535);
}

#[test]
fn all_options() {
    let a = read(&["ps", "-t", "10", "10.0.0.1", "20", "30", "extra"]).unwrap();
    assert_eq!(a.ip, "10.0.0.1");
    assert_eq!(a.thread_num, 10);
    assert_eq!(a.start_port, 20);
    assert_eq!(a.end_port, 30);
}

#[test]
fn each_error() {
    assert_eq!(read(&["ps", "-t", "x", "1.1.1.1"]).unwrap_err(), ArgsError::BadThreadNum);
    assert_eq!(read(&["ps", "-t", "3"]).unwrap_err(), ArgsError::MissingIp);
    assert_eq!(read(&["ps", "localhost"]).unwrap_err(), ArgsError::BadIp);
    assert_eq!(read(&["ps", "1.1.1.1", "x"]).unwrap_err(), ArgsError::BadStartPort);
    assert_eq!(read(&["ps", "1.1.1.1", "5", "70000"]).unwrap_err(), ArgsError::BadEndPort);
    assert_eq!(read(&["ps", "1.1.1.1", "9", "8"]).unwrap_err(), ArgsError::EndBeforeStart);
    assert_eq!(read(&["ps", "bad", "x"]).unwrap_err(), ArgsError::BadIp);
}

#[test]
fn messages() {
    assert_eq!(ArgsError::BadThreadNum.message(), "-t param must be number");
    assert_eq!(ArgsError::MissingIp.message(), "ipAddr must be present");
    assert_eq!(ArgsError::BadIp.message(), "ip format is not right");
    assert_eq!(ArgsError::BadStartPort.message(), "startPort format is not right");
    assert_eq!(ArgsError::BadEndPort.message(), "endPort format is not right");
    assert_eq!(ArgsError::EndBeforeStart.message(), "end should be greater than start");
    assert!(ArgsError::Usage.message().contains("Usage: port_sniffer"));
}

#[test]
fn scan_walks_by_thread_count() {
    let s = scan_ports(3, 12, 4);
    assert_eq!(s.ports, vec![3, 7, 11]);
    assert!(!s.overflows);
    let e = scan_ports(20, 10, 4);
    assert!(e.ports.is_empty());
    assert!(!e.overflows);
}

#[test]
fn scan_to_highest_port_overflows() {
    let s = scan_ports(65530, 65535, 4);
    assert_eq!(s.ports, vec![65530, 65534]);
    assert!(s.overflows);
}

#[test]
fn threads_split_the_range() {
    let scans = thread_scans(1, 10, 3);
    assert_eq!(scans.len(), 3);
    assert_eq!(scans[0].ports, vec![1, 4, 7, 10]);
    assert_eq!(scans[1].ports, vec![2, 5, 8]);
    assert_eq!(scans[2].ports, vec![3, 6, 9]);
}

#[test]
fn threads_stop_at_highest_start() {
    let scans = thread_scans(65534, 65535, 4);
    assert_eq!(scans.len(), 2);
    assert_eq!(scans[0].ports, vec![65534]);
    assert_eq!(scans[1].ports, vec![65535]);
}
