use channel_patterns::decimal::{push_decimal, push_signed_decimal};
use channel_patterns::lines::{
    data_line, receipt, receive_timing_line, receive_timings_csv, received_message, received_value,
    send_timing_line, send_timings_csv, spaced_timing_line, spaced_timings_csv, thread_message,
};

fn decimal_of(n: u128) -> Vec<u8> {
    let mut out = Vec::new();
    push_decimal(&mut out, n);
    out
}

fn signed_of(x: i64) -> Vec<u8> {
    let mut out = Vec::new();
    push_signed_decimal(&mut out, x);
    out
}

#[test]
fn decimal_renders_like_display() {
    assert_eq!(decimal_of(0), b"0".to_vec());
    assert_eq!(decimal_of(7), b"7".to_vec());
    assert_eq!(decimal_of(10), b"10".to_vec());
    assert_eq!(decimal_of(12345), b"12345".to_vec());
    assert_eq!(decimal_of(u128::MAX), format!("{}", u128::MAX).into_bytes());
    for n in [1u128, 9, 99, 100, 101, 65535, 1_000_000_007, u64::MAX as u128] {
        assert_eq!(decimal_of(n), n.to_string().into_bytes());
    }
}

#[test]
fn decimal_appends_after_existing_bytes() {
    let mut out = b"x=".to_vec();
    push_decimal(&mut out, 305);
    assert_eq!(out, b"x=305".to_vec());
}

#[test]
fn signed_decimal_renders_sign() {
    assert_eq!(signed_of(0), b"0".to_vec());
    assert_eq!(signed_of(-1), b"-1".to_vec());
    assert_eq!(signed_of(-42), b"-42".to_vec());
    assert_eq!(signed_of(42), b"42".to_vec());
    assert_eq!(signed_of(i64::MIN), b"-9223372036854775808".to_vec());
    assert_eq!(signed_of(i64::MAX), b"9223372036854775807".to_vec());
}

#[test]
fn send_timing_line_matches_format() {
    assert_eq!(send_timing_line(3, 7, 1500), b"3,7,1500\n".to_vec());
    assert_eq!(send_timing_line(-3, 0, 0), b"-3,0,0\n".to_vec());
    let t: i32 = 63;
    let i: usize = 1023;
    let nanos: u128 = 987_654_321;
    assert_eq!(send_timing_line(t, i, nanos), format!("{},{},{}\n", t, i, nanos).into_bytes());
}

#[test]
fn receive_timing_line_matches_format() {
    assert_eq!(receive_timing_line(0, 42), b"0,42\n".to_vec());
    assert_eq!(receive_timing_line(65535, 12), format!("{},{}\n", 65535, 12).into_bytes());
}

#[test]
fn spaced_timing_line_matches_writeln() {
    assert_eq!(spaced_timing_line(5, 17), b"5, 17\n".to_vec());
    assert_eq!(spaced_timing_line(12, u128::MAX), format!("{}, {}\n", 12, u128::MAX).into_bytes());
}

#[test]
fn receive_timings_csv_one_line_per_timing() {
    assert_eq!(receive_timings_csv(&[]), Vec::<u8>::new());
    assert_eq!(receive_timings_csv(&[10, 20, 3]), b"0,10\n1,20\n2,3\n".to_vec());
    let times: Vec<u128> = (0..100u128).map(|x| x * 37).collect();
    let file = receive_timings_csv(&times);
    assert_eq!(file.iter().filter(|b| **b == b'\n').count(), times.len());
    let mut expected = String::new();
    for (i, t) in times.iter().enumerate() {
        expected.push_str(&format!("{},{}\n", i, t));
    }
    assert_eq!(file, expected.into_bytes());
}

#[test]
fn spaced_timings_csv_one_line_per_time() {
    assert_eq!(spaced_timings_csv(&[]), Vec::<u8>::new());
    assert_eq!(spaced_timings_csv(&[9, 8]), b"0, 9\n1, 8\n".to_vec());
}

#[test]
fn timing_lines_read_back() {
    let line = String::from_utf8(send_timing_line(-12, 34, 5678)).unwrap();
    let fields: Vec<&str> = line.trim_end().split(',').collect();
    assert_eq!(fields, vec!["-12", "34", "5678"]);
    assert_eq!(fields[0].parse::<i32>().unwrap(), -12);
    assert_ne!(send_timing_line(1, 23, 4), send_timing_line(12, 3, 4));
    assert_ne!(receive_timing_line(1, 23), receive_timing_line(12, 3));
}

#[test]
fn thread_message_matches_format() {
    assert_eq!(thread_message(0, 0), b"Thread: 0, Message: 0\n".to_vec());
    assert_eq!(thread_message(63, 1023), format!("Thread: {}, Message: {}\n", 63, 1023).into_bytes());
}

#[test]
fn receipt_matches_println() {
    assert_eq!(receipt(2, 63, 5), b"Thread 2 received 63,5\n".to_vec());
}

#[test]
fn received_value_matches_println() {
    assert_eq!(received_value(9), b"Received: 9\n".to_vec());
    assert_eq!(received_value(-7), b"Received: -7\n".to_vec());
}

#[test]
fn received_message_matches_print() {
    assert_eq!(received_message("Hello, World!"), b"Received: Hello, World!".to_vec());
    assert_eq!(received_message(""), b"Received: ".to_vec());
    assert_eq!(received_message("h\u{e9}llo"), "Received: h\u{e9}llo".as_bytes().to_vec());
}

#[test]
fn data_line_matches_println() {
    assert_eq!(data_line(0), b"Data: 0\n".to_vec());
    assert_eq!(data_line(523776), b"Data: 523776\n".to_vec());
    assert_eq!(data_line(u64::MAX), format!("Data: {}\n", u64::MAX).into_bytes());
}

#[test]
fn send_timings_csv_one_line_per_send() {
    assert_eq!(send_timings_csv(4, &[]), Vec::<u8>::new());
    assert_eq!(send_timings_csv(-2, &[15, 7]), b"-2,0,15\n-2,1,7\n".to_vec());
    let times: Vec<u128> = (0..1024u128).map(|x| x * 1_003).collect();
    let mut expected = String::new();
    for (i, n) in times.iter().enumerate() {
        expected.push_str(&format!("{},{},{}\n", 63, i, n));
    }
    assert_eq!(send_timings_csv(63, &times), expected.into_bytes());
}
