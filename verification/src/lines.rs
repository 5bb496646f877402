//! The lines the programs print and the timing files they write.
use vstd::prelude::*;
use vstd::string::StringSliceAdditionalSpecFns;
use crate::decimal::{decimal, signed_decimal, decimal_value, signed_value, lemma_signed_decimal_round_trip, push_decimal, push_signed_decimal, lemma_decimal_round_trip};
use crate::text::{lacks, lemma_lacks_concat, is_digits, index_of, before_byte, after_byte, split_lines, lemma_cut, lemma_split_lines_flatten, all_ascii, lemma_all_ascii_concat, lemma_ascii_text_bytes, ascii_bytes, push_ascii, push_str_bytes, count_byte, lemma_count_byte_concat, lemma_count_byte_absent};

verus! {

broadcast use vstd::seq_lib::group_seq_properties;

/// The ASCII code of `,`.
pub open spec fn comma() -> u8 {
    44u8
}

/// The ASCII code of a line feed.
pub open spec fn newline() -> u8 {
    10u8
}

/// The ASCII code of a space.
pub open spec fn space() -> u8 {
    32u8
}

/// A line of a sender's timing file: the sender's number, the message's
/// index, and the nanoseconds the send took, separated by commas.
pub open spec fn send_line(t: int, i: nat, nanos: nat) -> Seq<u8> {
    signed_decimal(t) + seq![comma()] + decimal(i) + seq![comma()] + decimal(nanos) + seq![newline()]
}

/// A line of the receiver's timing file: the message's index and the
/// nanoseconds it travelled, separated by a comma.
pub open spec fn receive_line(i: nat, nanos: nat) -> Seq<u8> {
    decimal(i) + seq![comma()] + decimal(nanos) + seq![newline()]
}

/// A line of the timing files of the program with several receivers: the
/// index and the nanoseconds, separated by a comma and a space.
pub open spec fn spaced_line(i: nat, nanos: nat) -> Seq<u8> {
    decimal(i) + seq![comma(), space()] + decimal(nanos) + seq![newline()]
}

/// The timing file of sender `t`: line `i` for the `i`-th send.
pub open spec fn send_timings_file(t: int, nanos: Seq<u128>) -> Seq<u8> {
    Seq::new(nanos.len(), |i: int| send_line(t, i as nat, nanos[i] as nat)).flatten()
}

/// The receiver's timing file: line `i` for the `i`-th message received.
pub open spec fn receive_timings_file(nanos: Seq<u128>) -> Seq<u8> {
    Seq::new(nanos.len(), |i: int| receive_line(i as nat, nanos[i] as nat)).flatten()
}

/// A timing file of the program with several receivers: line `i` for the
/// `i`-th time.
pub open spec fn spaced_timings_file(nanos: Seq<u128>) -> Seq<u8> {
    Seq::new(nanos.len(), |i: int| spaced_line(i as nat, nanos[i] as nat)).flatten()
}

/// One line of a sender's timing file.
pub fn send_timing_line(t: i32, i: usize, nanos: u128) -> (line: Vec<u8>)
    ensures
        line@ == send_line(t as int, i as nat, nanos as nat),
{
    let mut line: Vec<u8> = Vec::new();
    push_signed_decimal(&mut line, t as i64);
    line.push(44u8);
    push_decimal(&mut line, i as u128);
    line.push(44u8);
    push_decimal(&mut line, nanos);
    line.push(10u8);
    assert(line@ =~= send_line(t as int, i as nat, nanos as nat));
    line
}

/// One line of the receiver's timing file.
pub fn receive_timing_line(i: usize, nanos: u128) -> (line: Vec<u8>)
    ensures
        line@ == receive_line(i as nat, nanos as nat),
{
    let mut line: Vec<u8> = Vec::new();
    push_decimal(&mut line, i as u128);
    line.push(44u8);
    push_decimal(&mut line, nanos);
    line.push(10u8);
    assert(line@ =~= receive_line(i as nat, nanos as nat));
    line
}

/// One line of a timing file of the program with several receivers.
pub fn spaced_timing_line(i: usize, nanos: u128) -> (line: Vec<u8>)
    ensures
        line@ == spaced_line(i as nat, nanos as nat),
{
    let mut line: Vec<u8> = Vec::new();
    push_decimal(&mut line, i as u128);
    line.push(44u8);
    line.push(32u8);
    push_decimal(&mut line, nanos);
    line.push(10u8);
    assert(line@ =~= spaced_line(i as nat, nanos as nat));
    line
}

/// The whole timing file of sender `t`, one line per send, in order.
pub fn send_timings_csv(t: i32, nanos: &[u128]) -> (file: Vec<u8>)
    ensures
        file@ == send_timings_file(t as int, nanos@),
{
    let mut file: Vec<u8> = Vec::new();
    let n = nanos.len();
    let ghost lines = Seq::new(nanos@.len(), |i: int| send_line(t as int, i as nat, nanos@[i] as nat));
    for i in 0..n
        invariant
            n == nanos@.len(),
            lines == Seq::new(nanos@.len(), |i: int| send_line(t as int, i as nat, nanos@[i] as nat)),
            file@ == lines.take(i as int).flatten(),
    {
        let mut line = send_timing_line(t, i, nanos[i]);
        file.append(&mut line);
        proof {
            assert(lines.take(i + 1) =~= lines.take(i as int).push(lines[i as int]));
            lines.take(i as int).lemma_flatten_push(lines[i as int]);
        }
    }
    assert(lines.take(n as int) =~= lines);
    file
}

/// The whole timing file of the receiver, one line per message, in order.
pub fn receive_timings_csv(nanos: &[u128]) -> (file: Vec<u8>)
    ensures
        file@ == receive_timings_file(nanos@),
{
    let mut file: Vec<u8> = Vec::new();
    let n = nanos.len();
    let ghost lines = Seq::new(nanos@.len(), |i: int| receive_line(i as nat, nanos@[i] as nat));
    for i in 0..n
        invariant
            n == nanos@.len(),
            lines == Seq::new(nanos@.len(), |i: int| receive_line(i as nat, nanos@[i] as nat)),
            file@ == lines.take(i as int).flatten(),
    {
        let mut line = receive_timing_line(i, nanos[i]);
        file.append(&mut line);
        proof {
            assert(lines.take(i + 1) =~= lines.take(i as int).push(lines[i as int]));
            lines.take(i as int).lemma_flatten_push(lines[i as int]);
        }
    }
    assert(lines.take(n as int) =~= lines);
    file
}

/// A whole timing file of the program with several receivers, one line per
/// time, in order.
pub fn spaced_timings_csv(nanos: &[u128]) -> (file: Vec<u8>)
    ensures
        file@ == spaced_timings_file(nanos@),
{
    let mut file: Vec<u8> = Vec::new();
    let n = nanos.len();
    let ghost lines = Seq::new(nanos@.len(), |i: int| spaced_line(i as nat, nanos@[i] as nat));
    for i in 0..n
        invariant
            n == nanos@.len(),
            lines == Seq::new(nanos@.len(), |i: int| spaced_line(i as nat, nanos@[i] as nat)),
            file@ == lines.take(i as int).flatten(),
    {
        let mut line = spaced_timing_line(i, nanos[i]);
        file.append(&mut line);
        proof {
            assert(lines.take(i + 1) =~= lines.take(i as int).push(lines[i as int]));
            lines.take(i as int).lemma_flatten_push(lines[i as int]);
        }
    }
    assert(lines.take(n as int) =~= lines);
    file
}

/// `Thread: t, Message: i` and a line feed: what each sending thread of the
/// bounded single-consumer program prints for its `i`-th message.
pub open spec fn thread_message_text(t: int, i: int) -> Seq<u8> {
    ascii_bytes("Thread: "@) + signed_decimal(t) + ascii_bytes(", Message: "@) + signed_decimal(i) + seq![newline()]
}

/// `Thread r received t,i` and a line feed: what receiver `r` of the
/// several-consumer program prints for message `i` of sender `t`.
pub open spec fn receipt_text(r: int, t: int, i: int) -> Seq<u8> {
    ascii_bytes("Thread "@) + signed_decimal(r) + ascii_bytes(" received "@) + signed_decimal(t) + seq![comma()]
        + signed_decimal(i) + seq![newline()]
}

/// `Received: v` and a line feed, for a number that came through the channel.
pub open spec fn received_value_text(v: int) -> Seq<u8> {
    ascii_bytes("Received: "@) + signed_decimal(v) + seq![newline()]
}

/// `Received: ` and the message, with no line feed.
pub open spec fn received_message_text(message: Seq<u8>) -> Seq<u8> {
    ascii_bytes("Received: "@) + message
}

/// `Data: d` and a line feed: the total the actor answered with.
pub open spec fn data_text(d: nat) -> Seq<u8> {
    ascii_bytes("Data: "@) + decimal(d) + seq![newline()]
}

/// The line a sending thread prints for its `i`-th message.
pub fn thread_message(t: i32, i: i32) -> (text: Vec<u8>)
    ensures
        text@ == thread_message_text(t as int, i as int),
{
    proof {
        reveal_strlit("Thread: ");
        reveal_strlit(", Message: ");
    }
    let mut text: Vec<u8> = Vec::new();
    push_ascii(&mut text, "Thread: ");
    push_signed_decimal(&mut text, t as i64);
    push_ascii(&mut text, ", Message: ");
    push_signed_decimal(&mut text, i as i64);
    text.push(10u8);
    assert(text@ =~= thread_message_text(t as int, i as int));
    text
}

/// The line receiver `r` prints for message `i` of sender `t`.
pub fn receipt(r: i32, t: i32, i: i32) -> (text: Vec<u8>)
    ensures
        text@ == receipt_text(r as int, t as int, i as int),
{
    proof {
        reveal_strlit("Thread ");
        reveal_strlit(" received ");
    }
    let mut text: Vec<u8> = Vec::new();
    push_ascii(&mut text, "Thread ");
    push_signed_decimal(&mut text, r as i64);
    push_ascii(&mut text, " received ");
    push_signed_decimal(&mut text, t as i64);
    text.push(44u8);
    push_signed_decimal(&mut text, i as i64);
    text.push(10u8);
    assert(text@ =~= receipt_text(r as int, t as int, i as int));
    text
}

/// The line printed for a number that came through the channel.
pub fn received_value(v: i32) -> (text: Vec<u8>)
    ensures
        text@ == received_value_text(v as int),
{
    proof {
        reveal_strlit("Received: ");
    }
    let mut text: Vec<u8> = Vec::new();
    push_ascii(&mut text, "Received: ");
    push_signed_decimal(&mut text, v as i64);
    text.push(10u8);
    assert(text@ =~= received_value_text(v as int));
    text
}

/// The text printed for a message that came through the channel.
pub fn received_message(message: &str) -> (text: Vec<u8>)
    ensures
        text@ == received_message_text(message.spec_bytes()),
{
    proof {
        reveal_strlit("Received: ");
    }
    let mut text: Vec<u8> = Vec::new();
    push_ascii(&mut text, "Received: ");
    push_str_bytes(&mut text, message);
    text
}

/// The line printed for the total the actor answered with.
pub fn data_line(d: u64) -> (text: Vec<u8>)
    ensures
        text@ == data_text(d as nat),
{
    proof {
        reveal_strlit("Data: ");
    }
    let mut text: Vec<u8> = Vec::new();
    push_ascii(&mut text, "Data: ");
    push_decimal(&mut text, d as u128);
    text.push(10u8);
    assert(text@ =~= data_text(d as nat));
    text
}

/// Digits never hold a line feed.
proof fn lemma_decimal_no_newline(n: nat)
    ensures
        count_byte(decimal(n), newline()) == 0,
{
    lemma_decimal_round_trip(n);
    lemma_count_byte_absent(decimal(n), newline());
}

/// A file made of lines that each hold one line feed holds as many line feeds as lines.
proof fn lemma_flatten_newlines(lines: Seq<Seq<u8>>)
    requires
        forall|i: int| 0 <= i < lines.len() ==> count_byte(#[trigger] lines[i], newline()) == 1,
    ensures
        count_byte(lines.flatten(), newline()) == lines.len(),
    decreases lines.len(),
{
    if lines.len() > 0 {
        let rest = lines.drop_last();
        assert forall|i: int| 0 <= i < rest.len() implies count_byte(#[trigger] rest[i], newline()) == 1 by {
            assert(rest[i] == lines[i]);
        }
        lemma_flatten_newlines(rest);
        assert(lines =~= rest.push(lines.last()));
        rest.lemma_flatten_push(lines.last());
        lemma_count_byte_concat(rest.flatten(), lines.last(), newline());
    }
}

/// A run of pieces without line feeds, then a line feed, holds one line feed.
proof fn lemma_one_newline(pieces: Seq<u8>)
    requires
        count_byte(pieces, newline()) == 0,
    ensures
        count_byte(pieces + seq![newline()], newline()) == 1,
{
    lemma_count_byte_concat(pieces, seq![newline()], newline());
    assert(seq![newline()].drop_last() =~= Seq::<u8>::empty());
}

/// The number of bytes `b` in a concatenation of three pieces.
proof fn lemma_count_three(a: Seq<u8>, b: Seq<u8>, c: Seq<u8>, x: u8)
    ensures
        count_byte(a + b + c, x) == count_byte(a, x) + count_byte(b, x) + count_byte(c, x),
{
    lemma_count_byte_concat(a, b, x);
    lemma_count_byte_concat(a + b, c, x);
}

/// A single byte other than `x` holds no `x`.
proof fn lemma_count_single(b: u8, x: u8)
    requires
        b != x,
    ensures
        count_byte(seq![b], x) == 0,
{
    assert(seq![b].drop_last() =~= Seq::<u8>::empty());
    assert(seq![b].last() == b);
    assert(count_byte(Seq::<u8>::empty(), x) == 0);
}

/// Every timing file has one line per timing: the line feeds in it are as
/// many as the timings it was made from.
pub proof fn law_one_line_per_timing(t: int, nanos: Seq<u128>)
    ensures
        count_byte(send_timings_file(t, nanos), newline()) == nanos.len(),
        count_byte(receive_timings_file(nanos), newline()) == nanos.len(),
        count_byte(spaced_timings_file(nanos), newline()) == nanos.len(),
{
    let sends = Seq::new(nanos.len(), |i: int| send_line(t, i as nat, nanos[i] as nat));
    let receives = Seq::new(nanos.len(), |i: int| receive_line(i as nat, nanos[i] as nat));
    let spaced = Seq::new(nanos.len(), |i: int| spaced_line(i as nat, nanos[i] as nat));
    lemma_count_single(comma(), newline());
    lemma_count_single(space(), newline());
    assert(count_byte(seq![comma(), space()], newline()) == 0) by {
        assert(seq![comma(), space()].drop_last() =~= seq![comma()]);
    }
    assert forall|i: int| 0 <= i < receives.len() implies count_byte(#[trigger] receives[i], newline()) == 1 by {
        lemma_decimal_no_newline(i as nat);
        lemma_decimal_no_newline(nanos[i] as nat);
        lemma_count_three(decimal(i as nat), seq![comma()], decimal(nanos[i] as nat), newline());
        lemma_one_newline(decimal(i as nat) + seq![comma()] + decimal(nanos[i] as nat));
    }
    assert forall|i: int| 0 <= i < spaced.len() implies count_byte(#[trigger] spaced[i], newline()) == 1 by {
        lemma_decimal_no_newline(i as nat);
        lemma_decimal_no_newline(nanos[i] as nat);
        lemma_count_three(decimal(i as nat), seq![comma(), space()], decimal(nanos[i] as nat), newline());
        lemma_one_newline(decimal(i as nat) + seq![comma(), space()] + decimal(nanos[i] as nat));
    }
    assert(count_byte(signed_decimal(t), newline()) == 0) by {
        if t < 0 {
            lemma_count_single(45u8, newline());
            lemma_decimal_no_newline((-t) as nat);
            lemma_count_byte_concat(seq![45u8], decimal((-t) as nat), newline());
        } else {
            lemma_decimal_no_newline(t as nat);
        }
    }
    assert forall|i: int| 0 <= i < sends.len() implies count_byte(#[trigger] sends[i], newline()) == 1 by {
        let a = signed_decimal(t) + seq![comma()] + decimal(i as nat);
        let b = seq![comma()] + decimal(nanos[i] as nat);
        lemma_decimal_no_newline(i as nat);
        lemma_decimal_no_newline(nanos[i] as nat);
        lemma_count_three(signed_decimal(t), seq![comma()], decimal(i as nat), newline());
        lemma_count_byte_concat(seq![comma()], decimal(nanos[i] as nat), newline());
        lemma_count_byte_concat(a, b, newline());
        assert(a + b =~= signed_decimal(t) + seq![comma()] + decimal(i as nat) + seq![comma()] + decimal(nanos[i] as nat));
        lemma_one_newline(a + b);
    }
    lemma_flatten_newlines(sends);
    lemma_flatten_newlines(receives);
    lemma_flatten_newlines(spaced);
}

/// Cutting at the first separator: when neither `a` nor `c` holds `sep`,
/// `a`, `sep`, `b` equals `c`, `sep`, `d` only if `a == c` and `b == d`.
proof fn lemma_split_at_separator(a: Seq<u8>, b: Seq<u8>, c: Seq<u8>, d: Seq<u8>, sep: u8)
    requires
        forall|i: int| 0 <= i < a.len() ==> a[i] != sep,
        forall|i: int| 0 <= i < c.len() ==> c[i] != sep,
        a + seq![sep] + b == c + seq![sep] + d,
    ensures
        a == c,
        b == d,
{
    let x = a + seq![sep] + b;
    let y = c + seq![sep] + d;
    if a.len() < c.len() {
        assert(x[a.len() as int] == sep);
        assert(y[a.len() as int] == c[a.len() as int]);
    } else if c.len() < a.len() {
        assert(y[c.len() as int] == sep);
        assert(x[c.len() as int] == a[c.len() as int]);
    }
    assert(a =~= x.take(a.len() as int));
    assert(c =~= y.take(c.len() as int));
    assert(b =~= x.skip(a.len() as int + 1));
    assert(d =~= y.skip(c.len() as int + 1));
}

/// Digits hold no byte that is not a digit.
proof fn lemma_decimal_avoids(n: nat, b: u8)
    requires
        !(48 <= b <= 57),
    ensures
        forall|i: int| 0 <= i < decimal(n).len() ==> decimal(n)[i] != b,
{
    lemma_decimal_round_trip(n);
}

/// The rendering of a signed number gives the number back.
proof fn lemma_signed_decimal_injective(x: int, y: int)
    requires
        signed_decimal(x) == signed_decimal(y),
    ensures
        x == y,
{
    if x < 0 && y < 0 {
        assert(decimal((-x) as nat) =~= signed_decimal(x).skip(1));
        assert(decimal((-y) as nat) =~= signed_decimal(y).skip(1));
        crate::decimal::lemma_decimal_injective((-x) as nat, (-y) as nat);
    } else if x < 0 {
        lemma_decimal_round_trip(y as nat);
        assert(signed_decimal(y)[0] == decimal(y as nat)[0]);
    } else if y < 0 {
        lemma_decimal_round_trip(x as nat);
        assert(signed_decimal(x)[0] == decimal(x as nat)[0]);
    } else {
        crate::decimal::lemma_decimal_injective(x as nat, y as nat);
    }
}

/// A signed rendering holds no comma.
proof fn lemma_signed_decimal_no_comma(x: int)
    ensures
        forall|i: int| 0 <= i < signed_decimal(x).len() ==> signed_decimal(x)[i] != comma(),
{
    if x < 0 {
        lemma_decimal_avoids((-x) as nat, comma());
        assert forall|i: int| 0 <= i < signed_decimal(x).len() implies signed_decimal(x)[i] != comma() by {
            if i > 0 {
                assert(signed_decimal(x)[i] == decimal((-x) as nat)[i - 1]);
            }
        }
    } else {
        lemma_decimal_avoids(x as nat, comma());
    }
}

/// Each line of a timing file reads back as the values it was written from:
/// two lines of the same kind are equal only when their values are.
pub proof fn law_timing_lines_read_back(t1: int, i1: nat, n1: nat, t2: int, i2: nat, n2: nat)
    ensures
        send_line(t1, i1, n1) == send_line(t2, i2, n2) ==> t1 == t2 && i1 == i2 && n1 == n2,
        receive_line(i1, n1) == receive_line(i2, n2) ==> i1 == i2 && n1 == n2,
        spaced_line(i1, n1) == spaced_line(i2, n2) ==> i1 == i2 && n1 == n2,
{
    if send_line(t1, i1, n1) == send_line(t2, i2, n2) {
        lemma_send_parts(t1, i1, n1, t2, i2, n2);
    }
    if receive_line(i1, n1) == receive_line(i2, n2) {
        lemma_receive_parts(i1, n1, i2, n2, receive_line(i1, n1), receive_line(i2, n2));
    }
    if spaced_line(i1, n1) == spaced_line(i2, n2) {
        lemma_spaced_parts(i1, n1, i2, n2);
    }
}

/// The values of two equal sender lines agree.
proof fn lemma_send_parts(t1: int, i1: nat, n1: nat, t2: int, i2: nat, n2: nat)
    requires
        send_line(t1, i1, n1) == send_line(t2, i2, n2),
    ensures
        t1 == t2,
        i1 == i2,
        n1 == n2,
{
    lemma_signed_decimal_no_comma(t1);
    lemma_signed_decimal_no_comma(t2);
    let r1 = decimal(i1) + seq![comma()] + decimal(n1) + seq![newline()];
    let r2 = decimal(i2) + seq![comma()] + decimal(n2) + seq![newline()];
    assert(send_line(t1, i1, n1) =~= signed_decimal(t1) + seq![comma()] + r1);
    assert(send_line(t2, i2, n2) =~= signed_decimal(t2) + seq![comma()] + r2);
    lemma_split_at_separator(signed_decimal(t1), r1, signed_decimal(t2), r2, comma());
    lemma_signed_decimal_injective(t1, t2);
    lemma_receive_parts(i1, n1, i2, n2, r1, r2);
}

/// The index and time of two equal spaced lines agree.
proof fn lemma_spaced_parts(i1: nat, n1: nat, i2: nat, n2: nat)
    requires
        spaced_line(i1, n1) == spaced_line(i2, n2),
    ensures
        i1 == i2,
        n1 == n2,
{
    lemma_decimal_avoids(i1, comma());
    lemma_decimal_avoids(i2, comma());
    let r1 = seq![space()] + decimal(n1) + seq![newline()];
    let r2 = seq![space()] + decimal(n2) + seq![newline()];
    assert(spaced_line(i1, n1) =~= decimal(i1) + seq![comma()] + r1);
    assert(spaced_line(i2, n2) =~= decimal(i2) + seq![comma()] + r2);
    lemma_split_at_separator(decimal(i1), r1, decimal(i2), r2, comma());
    crate::decimal::lemma_decimal_injective(i1, i2);
    assert(r1.skip(1) =~= decimal(n1) + seq![newline()]);
    assert(r2.skip(1) =~= decimal(n2) + seq![newline()]);
    lemma_last_field(n1, n2, r1.skip(1), r2.skip(1));
}

/// Two equal last fields, each digits and a line feed, hold the same number.
proof fn lemma_last_field(n1: nat, n2: nat, s1: Seq<u8>, s2: Seq<u8>)
    requires
        s1 == decimal(n1) + seq![newline()],
        s2 == decimal(n2) + seq![newline()],
        s1 == s2,
    ensures
        n1 == n2,
{
    lemma_decimal_avoids(n1, newline());
    lemma_decimal_avoids(n2, newline());
    assert(s1 =~= decimal(n1) + seq![newline()] + Seq::<u8>::empty());
    assert(s2 =~= decimal(n2) + seq![newline()] + Seq::<u8>::empty());
    lemma_split_at_separator(decimal(n1), Seq::empty(), decimal(n2), Seq::empty(), newline());
    crate::decimal::lemma_decimal_injective(n1, n2);
}

/// The index and time of two equal receiver lines agree.
proof fn lemma_receive_parts(i1: nat, n1: nat, i2: nat, n2: nat, r1: Seq<u8>, r2: Seq<u8>)
    requires
        r1 == receive_line(i1, n1),
        r2 == receive_line(i2, n2),
        r1 == r2,
    ensures
        i1 == i2,
        n1 == n2,
{
    lemma_decimal_avoids(i1, comma());
    lemma_decimal_avoids(i2, comma());
    let s1 = decimal(n1) + seq![newline()];
    let s2 = decimal(n2) + seq![newline()];
    assert(r1 =~= decimal(i1) + seq![comma()] + s1);
    assert(r2 =~= decimal(i2) + seq![comma()] + s2);
    lemma_split_at_separator(decimal(i1), s1, decimal(i2), s2, comma());
    crate::decimal::lemma_decimal_injective(i1, i2);
    lemma_last_field(n1, n2, s1, s2);
}

/// A signed rendering is ASCII.
proof fn lemma_signed_decimal_ascii(x: int)
    ensures
        all_ascii(signed_decimal(x)),
{
    if x < 0 {
        lemma_decimal_round_trip((-x) as nat);
        assert(all_ascii(seq![45u8]));
        lemma_all_ascii_concat(seq![45u8], decimal((-x) as nat));
    } else {
        lemma_decimal_round_trip(x as nat);
    }
}

/// The line of a sending thread is ASCII.
pub proof fn lemma_thread_message_ascii(t: int, i: int)
    ensures
        all_ascii(thread_message_text(t, i)),
{
    reveal_strlit("Thread: ");
    reveal_strlit(", Message: ");
    lemma_ascii_text_bytes("Thread: ");
    lemma_ascii_text_bytes(", Message: ");
    lemma_signed_decimal_ascii(t);
    lemma_signed_decimal_ascii(i);
    let a = ascii_bytes("Thread: "@);
    let b = ascii_bytes(", Message: "@);
    lemma_all_ascii_concat(a, signed_decimal(t));
    lemma_all_ascii_concat(a + signed_decimal(t), b);
    lemma_all_ascii_concat(a + signed_decimal(t) + b, signed_decimal(i));
    assert(all_ascii(seq![newline()]));
    lemma_all_ascii_concat(a + signed_decimal(t) + b + signed_decimal(i), seq![newline()]);
}

/// Digits lack any byte that is not a digit.
proof fn lemma_decimal_lacks(n: nat, b: u8)
    requires
        !(48 <= b <= 57),
    ensures
        lacks(decimal(n), b),
        is_digits(decimal(n)),
        decimal_value(decimal(n)) == n,
{
    lemma_decimal_round_trip(n);
}

/// A signed rendering lacks any byte that is neither a digit nor `-`.
proof fn lemma_signed_lacks(x: int, b: u8)
    requires
        !(48 <= b <= 57),
        b != 45,
    ensures
        lacks(signed_decimal(x), b),
        signed_value(signed_decimal(x)) == x,
{
    lemma_signed_decimal_round_trip(x);
}

/// A single byte lacks every other byte.
proof fn lemma_lacks_single(c: u8, b: u8)
    requires
        c != b,
    ensures
        lacks(seq![c], b),
{
}

/// Lines that each end with their only line feed: the file they make splits
/// back into them.
proof fn lemma_file_lines(lines: Seq<Seq<u8>>, bodies: Seq<Seq<u8>>)
    requires
        lines.len() == bodies.len(),
        forall|k: int| 0 <= k < lines.len() ==> #[trigger] lines[k] == bodies[k] + seq![newline()],
        forall|k: int| 0 <= k < bodies.len() ==> lacks(#[trigger] bodies[k], newline()),
    ensures
        split_lines(lines.flatten()) == bodies,
{
    assert forall|k: int| 0 <= k < lines.len() implies (#[trigger] lines[k]).len() >= 1 && lines[k].last() == 10u8 by {
        assert(lines[k] == bodies[k] + seq![newline()]);
    }
    assert forall|k: int, j: int| 0 <= k < lines.len() && 0 <= j < lines[k].len() - 1 implies #[trigger] lines[k][j] != 10u8 by {
        assert(lines[k] == bodies[k] + seq![newline()]);
        assert(lines[k][j] == bodies[k][j]);
    }
    lemma_split_lines_flatten(lines);
    assert forall|k: int| 0 <= k < lines.len() implies #[trigger] lines[k].drop_last() == bodies[k] by {
        assert(lines[k].drop_last() =~= bodies[k]);
    }
    assert(Seq::new(lines.len(), |k: int| lines[k].drop_last()) =~= bodies);
}

/// The receiver's timing file reads back as what it was written from: it has
/// one line per timing, and line `k` holds the digits of `k`, a comma, and
/// the digits of the `k`-th timing.
pub proof fn law_receive_file_reads_back(nanos: Seq<u128>)
    ensures
        split_lines(receive_timings_file(nanos)).len() == nanos.len(),
        forall|k: int|
            0 <= k < nanos.len() ==> is_digits(before_byte(#[trigger] split_lines(receive_timings_file(nanos))[k], comma()))
                && decimal_value(before_byte(split_lines(receive_timings_file(nanos))[k], comma())) == k
                && is_digits(after_byte(split_lines(receive_timings_file(nanos))[k], comma()))
                && decimal_value(after_byte(split_lines(receive_timings_file(nanos))[k], comma())) == nanos[k],
{
    let lines = Seq::new(nanos.len(), |i: int| receive_line(i as nat, nanos[i] as nat));
    let bodies = Seq::new(nanos.len(), |i: int| decimal(i as nat) + seq![comma()] + decimal(nanos[i] as nat));
    assert forall|k: int| #![trigger lines[k]] #![trigger bodies[k]] 0 <= k < nanos.len() implies lines[k] == bodies[k] + seq![newline()]
        && lacks(bodies[k], newline()) by {
        assert(lines[k] =~= bodies[k] + seq![newline()]);
        lemma_decimal_lacks(k as nat, newline());
        lemma_decimal_lacks(nanos[k] as nat, newline());
        lemma_lacks_single(comma(), newline());
        lemma_lacks_concat(decimal(k as nat), seq![comma()], newline());
        lemma_lacks_concat(decimal(k as nat) + seq![comma()], decimal(nanos[k] as nat), newline());
    }
    lemma_file_lines(lines, bodies);
    assert forall|k: int| 0 <= k < nanos.len() implies is_digits(before_byte(#[trigger] split_lines(receive_timings_file(nanos))[k], comma()))
        && decimal_value(before_byte(split_lines(receive_timings_file(nanos))[k], comma())) == k
        && is_digits(after_byte(split_lines(receive_timings_file(nanos))[k], comma()))
        && decimal_value(after_byte(split_lines(receive_timings_file(nanos))[k], comma())) == nanos[k] by {
        assert(split_lines(receive_timings_file(nanos))[k] == bodies[k]);
        lemma_decimal_lacks(k as nat, comma());
        lemma_decimal_lacks(nanos[k] as nat, comma());
        lemma_cut(decimal(k as nat), comma(), decimal(nanos[k] as nat));
    }
}

/// A timing file of the program with several receivers reads back as what it
/// was written from: it has one line per time, and line `k` holds the digits
/// of `k`, a comma, a space, and the digits of the `k`-th time.
pub proof fn law_spaced_file_reads_back(nanos: Seq<u128>)
    ensures
        split_lines(spaced_timings_file(nanos)).len() == nanos.len(),
        forall|k: int|
            0 <= k < nanos.len() ==> is_digits(before_byte(#[trigger] split_lines(spaced_timings_file(nanos))[k], comma()))
                && decimal_value(before_byte(split_lines(spaced_timings_file(nanos))[k], comma())) == k
                && after_byte(split_lines(spaced_timings_file(nanos))[k], comma()).len() >= 1
                && after_byte(split_lines(spaced_timings_file(nanos))[k], comma())[0] == space()
                && is_digits(after_byte(split_lines(spaced_timings_file(nanos))[k], comma()).drop_first())
                && decimal_value(after_byte(split_lines(spaced_timings_file(nanos))[k], comma()).drop_first()) == nanos[k],
{
    let lines = Seq::new(nanos.len(), |i: int| spaced_line(i as nat, nanos[i] as nat));
    let bodies = Seq::new(nanos.len(), |i: int| decimal(i as nat) + seq![comma()] + (seq![space()] + decimal(nanos[i] as nat)));
    assert forall|k: int| #![trigger lines[k]] #![trigger bodies[k]] 0 <= k < nanos.len() implies lines[k] == bodies[k] + seq![newline()]
        && lacks(bodies[k], newline()) by {
        assert(lines[k] =~= bodies[k] + seq![newline()]);
        lemma_decimal_lacks(k as nat, newline());
        lemma_decimal_lacks(nanos[k] as nat, newline());
        lemma_lacks_single(comma(), newline());
        lemma_lacks_single(space(), newline());
        lemma_lacks_concat(seq![space()], decimal(nanos[k] as nat), newline());
        lemma_lacks_concat(decimal(k as nat), seq![comma()], newline());
        lemma_lacks_concat(decimal(k as nat) + seq![comma()], seq![space()] + decimal(nanos[k] as nat), newline());
        assert(bodies[k] == decimal(k as nat) + seq![comma()] + (seq![space()] + decimal(nanos[k] as nat)));
    }
    lemma_file_lines(lines, bodies);
    assert forall|k: int| 0 <= k < nanos.len() implies is_digits(before_byte(#[trigger] split_lines(spaced_timings_file(nanos))[k], comma()))
        && decimal_value(before_byte(split_lines(spaced_timings_file(nanos))[k], comma())) == k
        && after_byte(split_lines(spaced_timings_file(nanos))[k], comma()).len() >= 1
        && after_byte(split_lines(spaced_timings_file(nanos))[k], comma())[0] == space()
        && is_digits(after_byte(split_lines(spaced_timings_file(nanos))[k], comma()).drop_first())
        && decimal_value(after_byte(split_lines(spaced_timings_file(nanos))[k], comma()).drop_first()) == nanos[k] by {
        assert(split_lines(spaced_timings_file(nanos))[k] == bodies[k]);
        lemma_decimal_lacks(k as nat, comma());
        lemma_decimal_lacks(nanos[k] as nat, comma());
        lemma_cut(decimal(k as nat), comma(), seq![space()] + decimal(nanos[k] as nat));
        assert((seq![space()] + decimal(nanos[k] as nat)).drop_first() =~= decimal(nanos[k] as nat));
    }
}

/// A sender's timing file reads back as what it was written from: it has one
/// line per send, and line `k` holds the sender's number `t`, the digits of
/// `k` and the digits of the `k`-th timing, separated by commas.
pub proof fn law_send_file_reads_back(t: int, nanos: Seq<u128>)
    ensures
        split_lines(send_timings_file(t, nanos)).len() == nanos.len(),
        forall|k: int|
            0 <= k < nanos.len() ==> signed_value(before_byte(#[trigger] split_lines(send_timings_file(t, nanos))[k], comma())) == t
                && is_digits(before_byte(after_byte(split_lines(send_timings_file(t, nanos))[k], comma()), comma()))
                && decimal_value(before_byte(after_byte(split_lines(send_timings_file(t, nanos))[k], comma()), comma())) == k
                && is_digits(after_byte(after_byte(split_lines(send_timings_file(t, nanos))[k], comma()), comma()))
                && decimal_value(after_byte(after_byte(split_lines(send_timings_file(t, nanos))[k], comma()), comma())) == nanos[k],
{
    let lines = Seq::new(nanos.len(), |i: int| send_line(t, i as nat, nanos[i] as nat));
    let bodies = Seq::new(nanos.len(), |i: int| signed_decimal(t) + seq![comma()] + (decimal(i as nat) + seq![comma()] + decimal(nanos[i] as nat)));
    lemma_signed_lacks(t, newline());
    lemma_signed_lacks(t, comma());
    lemma_lacks_single(comma(), newline());
    assert forall|k: int| #![trigger lines[k]] #![trigger bodies[k]] 0 <= k < nanos.len() implies lines[k] == bodies[k] + seq![newline()]
        && lacks(bodies[k], newline()) by {
        let rest = decimal(k as nat) + seq![comma()] + decimal(nanos[k] as nat);
        assert(lines[k] =~= bodies[k] + seq![newline()]);
        lemma_decimal_lacks(k as nat, newline());
        lemma_decimal_lacks(nanos[k] as nat, newline());
        lemma_lacks_concat(decimal(k as nat), seq![comma()], newline());
        lemma_lacks_concat(decimal(k as nat) + seq![comma()], decimal(nanos[k] as nat), newline());
        lemma_lacks_concat(signed_decimal(t), seq![comma()], newline());
        lemma_lacks_concat(signed_decimal(t) + seq![comma()], rest, newline());
        assert(bodies[k] == signed_decimal(t) + seq![comma()] + rest);
    }
    lemma_file_lines(lines, bodies);
    assert forall|k: int| 0 <= k < nanos.len() implies signed_value(before_byte(#[trigger] split_lines(send_timings_file(t, nanos))[k], comma())) == t
        && is_digits(before_byte(after_byte(split_lines(send_timings_file(t, nanos))[k], comma()), comma()))
        && decimal_value(before_byte(after_byte(split_lines(send_timings_file(t, nanos))[k], comma()), comma())) == k
        && is_digits(after_byte(after_byte(split_lines(send_timings_file(t, nanos))[k], comma()), comma()))
        && decimal_value(after_byte(after_byte(split_lines(send_timings_file(t, nanos))[k], comma()), comma())) == nanos[k] by {
        let rest = decimal(k as nat) + seq![comma()] + decimal(nanos[k] as nat);
        assert(split_lines(send_timings_file(t, nanos))[k] == bodies[k]);
        lemma_cut(signed_decimal(t), comma(), rest);
        lemma_decimal_lacks(k as nat, comma());
        lemma_decimal_lacks(nanos[k] as nat, comma());
        lemma_cut(decimal(k as nat), comma(), decimal(nanos[k] as nat));
    }
}

/// The bytes of the fixed words of the printed lines.
proof fn lemma_fixed_words()
    ensures
        ascii_bytes("Thread "@) == seq![84u8, 104, 114, 101, 97, 100, 32],
        ascii_bytes(" received "@) == seq![32u8, 114, 101, 99, 101, 105, 118, 101, 100, 32],
        ascii_bytes("Thread: "@) == seq![84u8, 104, 114, 101, 97, 100, 58, 32],
        ascii_bytes(", Message: "@) == seq![44u8, 32, 77, 101, 115, 115, 97, 103, 101, 58, 32],
        ascii_bytes("Received: "@) == seq![82u8, 101, 99, 101, 105, 118, 101, 100, 58, 32],
        ascii_bytes("Data: "@) == seq![68u8, 97, 116, 97, 58, 32],
{
    reveal_strlit("Thread ");
    reveal_strlit(" received ");
    reveal_strlit("Thread: ");
    reveal_strlit(", Message: ");
    reveal_strlit("Received: ");
    reveal_strlit("Data: ");
    assert(ascii_bytes("Thread "@) =~= seq![84u8, 104, 114, 101, 97, 100, 32]);
    assert(ascii_bytes(" received "@) =~= seq![32u8, 114, 101, 99, 101, 105, 118, 101, 100, 32]);
    assert(ascii_bytes("Thread: "@) =~= seq![84u8, 104, 114, 101, 97, 100, 58, 32]);
    assert(ascii_bytes(", Message: "@) =~= seq![44u8, 32, 77, 101, 115, 115, 97, 103, 101, 58, 32]);
    assert(ascii_bytes("Received: "@) =~= seq![82u8, 101, 99, 101, 105, 118, 101, 100, 58, 32]);
    assert(ascii_bytes("Data: "@) =~= seq![68u8, 97, 116, 97, 58, 32]);
}

/// A receiver's line reads back as what it was written from: the number after
/// the first space is the receiver `r`, the one after the third space (up to
/// the comma) is the sender `t`, and the one after the comma (up to the line
/// feed) is the message index `i`.
pub proof fn law_receipt_reads_back(r: int, t: int, i: int)
    ensures
        signed_value(before_byte(after_byte(receipt_text(r, t, i), space()), space())) == r,
        signed_value(
            before_byte(after_byte(after_byte(after_byte(receipt_text(r, t, i), space()), space()), space()), comma()),
        ) == t,
        signed_value(before_byte(after_byte(receipt_text(r, t, i), comma()), newline())) == i,
{
    lemma_receipt_by_spaces(r, t, i);
    lemma_receipt_after_comma(r, t, i);
}

/// The bytes of the word `Thread`.
spec fn thread_word() -> Seq<u8> {
    seq![84u8, 104, 114, 101, 97, 100]
}

/// The bytes of the word `received`.
spec fn received_word() -> Seq<u8> {
    seq![114u8, 101, 99, 101, 105, 118, 101, 100]
}

/// The words of a receiver's line, cut at spaces.
proof fn lemma_receipt_by_spaces(r: int, t: int, i: int)
    ensures
        signed_value(before_byte(after_byte(receipt_text(r, t, i), space()), space())) == r,
        signed_value(
            before_byte(after_byte(after_byte(after_byte(receipt_text(r, t, i), space()), space()), space()), comma()),
        ) == t,
{
    lemma_fixed_words();
    let w = thread_word();
    let v = received_word();
    let r4 = signed_decimal(i) + seq![newline()];
    let r3 = signed_decimal(t) + seq![comma()] + r4;
    let r2 = v + seq![space()] + r3;
    let r1 = signed_decimal(r) + seq![space()] + r2;
    assert(receipt_text(r, t, i) =~= w + seq![space()] + r1);
    assert(lacks(w, space()));
    assert(lacks(v, space()));
    lemma_signed_lacks(r, space());
    lemma_signed_lacks(t, comma());
    lemma_cut(w, space(), r1);
    lemma_cut(signed_decimal(r), space(), r2);
    lemma_cut(v, space(), r3);
    lemma_cut(signed_decimal(t), comma(), r4);
}

/// What follows the comma of a receiver's line.
proof fn lemma_receipt_after_comma(r: int, t: int, i: int)
    ensures
        signed_value(before_byte(after_byte(receipt_text(r, t, i), comma()), newline())) == i,
{
    lemma_fixed_words();
    let head = ascii_bytes("Thread "@) + signed_decimal(r) + ascii_bytes(" received "@) + signed_decimal(t);
    let r4 = signed_decimal(i) + seq![newline()];
    assert(receipt_text(r, t, i) =~= head + seq![comma()] + r4);
    lemma_signed_lacks(r, comma());
    lemma_signed_lacks(t, comma());
    lemma_signed_lacks(i, newline());
    assert(lacks(ascii_bytes("Thread "@), comma()));
    assert(lacks(ascii_bytes(" received "@), comma()));
    lemma_lacks_concat(ascii_bytes("Thread "@), signed_decimal(r), comma());
    lemma_lacks_concat(ascii_bytes("Thread "@) + signed_decimal(r), ascii_bytes(" received "@), comma());
    lemma_lacks_concat(ascii_bytes("Thread "@) + signed_decimal(r) + ascii_bytes(" received "@), signed_decimal(t), comma());
    lemma_cut(head, comma(), r4);
    assert(r4 =~= signed_decimal(i) + seq![newline()] + Seq::<u8>::empty());
    lemma_cut(signed_decimal(i), newline(), Seq::empty());
}

/// A sending thread's line reads back as what it was written from: the
/// number before the comma, after `Thread: `, is the thread `t`, and the one
/// after `, Message: ` (up to the line feed) is the message index `i`.
pub proof fn law_thread_message_reads_back(t: int, i: int)
    ensures
        signed_value(before_byte(thread_message_text(t, i), comma()).skip(8)) == t,
        signed_value(before_byte(after_byte(thread_message_text(t, i), comma()).skip(10), newline())) == i,
{
    lemma_fixed_words();
    let head = ascii_bytes("Thread: "@) + signed_decimal(t);
    let tail = seq![32u8, 77, 101, 115, 115, 97, 103, 101, 58, 32] + signed_decimal(i) + seq![newline()];
    assert(thread_message_text(t, i) =~= head + seq![comma()] + tail);
    lemma_signed_lacks(t, comma());
    lemma_signed_lacks(i, newline());
    assert(lacks(ascii_bytes("Thread: "@), comma()));
    lemma_lacks_concat(ascii_bytes("Thread: "@), signed_decimal(t), comma());
    lemma_cut(head, comma(), tail);
    assert(head.skip(8) =~= signed_decimal(t));
    assert(tail.skip(10) =~= signed_decimal(i) + seq![newline()] + Seq::<u8>::empty());
    lemma_cut(signed_decimal(i), newline(), Seq::empty());
}

/// The line printed for a number read from the channel reads back as that
/// number: after `Received: `, up to the line feed.
pub proof fn law_received_value_reads_back(v: int)
    ensures
        signed_value(before_byte(received_value_text(v).skip(10), newline())) == v,
{
    lemma_fixed_words();
    assert(received_value_text(v).skip(10) =~= signed_decimal(v) + seq![newline()] + Seq::<u8>::empty());
    lemma_signed_lacks(v, newline());
    lemma_cut(signed_decimal(v), newline(), Seq::empty());
}

/// The line printed for the actor's total reads back as that total: after
/// `Data: `, up to the line feed, are its digits.
pub proof fn law_data_line_reads_back(d: nat)
    ensures
        is_digits(before_byte(data_text(d).skip(6), newline())),
        decimal_value(before_byte(data_text(d).skip(6), newline())) == d,
{
    lemma_fixed_words();
    assert(data_text(d).skip(6) =~= decimal(d) + seq![newline()] + Seq::<u8>::empty());
    lemma_decimal_lacks(d, newline());
    lemma_cut(decimal(d), newline(), Seq::empty());
}

} // verus!
