use vstd::prelude::*;
use crate::checks::{
    all_digits, filter_text, format_check_payload, int_of, opt_view, perf_tokens, CheckPayload,
    CheckResult,
};
use crate::decimal::{
    decimal_of, decimal_text, digits_value, frac_digits, int_part, is_number_run, lemma_fit_len,
    parse_decimal,
    strip_zeros, Decimal,
};
use crate::laws::law_performance_round_trip;
use crate::scan::{
    digit_run_end, digit_run_end_exec, first_match, has_at, has_at_exec, number_run_end,
    number_run_end_exec,
};
use crate::text::{
    chars_of, int_text, int_to_text, is_digit, is_space, join_strings, join_with, nat_text,
    push_nat, trim_end_at, trim_start_at, trimmed,
};

verus! {

/// Packet loss, in percent, recorded when the probe output gives none.
pub const UNREAD_LOSS_PERCENT: u64 = 100;

/// Round-trip time, in milliseconds, recorded when the probe output gives none.
pub const UNREAD_RTT_MS: u64 = 10000;

/// What one run of the probe tool measured.
#[derive(Clone, Copy, Debug, PartialEq, Eq, Structural)]
pub struct PingMetrics {
    /// Percentage of probes lost.
    pub packet_loss: Decimal,
    /// Total duration of the run, in milliseconds.
    pub time: i32,
    pub rtt_min: Decimal,
    pub rtt_avg: Decimal,
    pub rtt_max: Decimal,
    pub rtt_mdev: Decimal,
}

pub open spec fn unread_loss() -> Decimal {
    Decimal { mantissa: UNREAD_LOSS_PERCENT, scale: 0 }
}

pub open spec fn unread_rtt() -> Decimal {
    Decimal { mantissa: UNREAD_RTT_MS, scale: 0 }
}

/// What the run of digits and points `t` reads as, or `dflt` when it cannot be read.
pub open spec fn decimal_or(t: Seq<char>, dflt: Decimal) -> Decimal {
    match decimal_of(t) {
        Some((m, e)) => Decimal { mantissa: m as u64, scale: e as usize },
        None => dflt,
    }
}

// ----- packet loss: a percentage (digits and points), then "% packet loss" -----

pub open spec fn loss_pattern() -> Seq<char> {
    "% packet loss"@
}

/// A packet-loss figure, a run of digits and points such as `12.5`, starts at `i`.
pub open spec fn loss_at(s: Seq<char>, i: int) -> bool {
    0 <= i < s.len() && (is_digit(s[i]) || s[i] == '.') && has_at(
        s,
        number_run_end(s, i),
        loss_pattern(),
    )
}

pub open spec fn loss_pred(s: Seq<char>) -> spec_fn(int) -> bool {
    |i: int| loss_at(s, i)
}

/// The packet loss that the probe output `s` reports: its first figure, read
/// as a decimal; one that does not read as a number counts as total loss.
pub open spec fn loss_of(s: Seq<char>) -> Decimal {
    match first_match(loss_pred(s), 0, s.len() as int) {
        Some(i) => decimal_or(s.subrange(i, number_run_end(s, i)), unread_loss()),
        None => unread_loss(),
    }
}

// ----- total time: "time ", digits, then "ms" -----

pub open spec fn time_pattern() -> Seq<char> {
    "time "@
}

pub open spec fn ms_pattern() -> Seq<char> {
    "ms"@
}

/// A total-time figure starts at `i`.
pub open spec fn time_at(s: Seq<char>, i: int) -> bool {
    let d = i + time_pattern().len();
    has_at(s, i, time_pattern()) && d < s.len() && is_digit(s[d]) && has_at(
        s,
        digit_run_end(s, d),
        ms_pattern(),
    )
}

pub open spec fn time_pred(s: Seq<char>) -> spec_fn(int) -> bool {
    |i: int| time_at(s, i)
}

/// The total time that the digits `t` give: 0 where they exceed `i32`.
pub open spec fn time_value(t: Seq<char>) -> int {
    match decimal_of(t) {
        Some((m, e)) => if m <= i32::MAX { m as int } else { 0 },
        None => 0,
    }
}

/// The total time that the probe output `s` reports: its first figure.
pub open spec fn time_of(s: Seq<char>) -> int {
    match first_match(time_pred(s), 0, s.len() as int) {
        Some(i) => {
            let d = i + time_pattern().len();
            time_value(s.subrange(d, digit_run_end(s, d)))
        },
        None => 0,
    }
}

// ----- round-trip times: "rtt min/avg/max/mdev = A/B/C/D ms" -----

pub open spec fn rtt_pattern() -> Seq<char> {
    "rtt min/avg/max/mdev = "@
}

pub open spec fn rtt_tail() -> Seq<char> {
    " ms"@
}

/// Where field `k` (0 to 3) of a quartet line at `i` begins.
pub open spec fn rtt_begin(s: Seq<char>, i: int, k: nat) -> int
    decreases k,
{
    if k == 0 {
        i + rtt_pattern().len()
    } else {
        number_run_end(s, rtt_begin(s, i, (k - 1) as nat)) + 1
    }
}

/// Where field `k` of a quartet line at `i` ends.
pub open spec fn rtt_end(s: Seq<char>, i: int, k: nat) -> int {
    number_run_end(s, rtt_begin(s, i, k))
}

/// Field `k` is not empty and is followed by `/`, or, for the last, by ` ms`.
pub open spec fn rtt_field_ok(s: Seq<char>, i: int, k: nat) -> bool {
    let e = rtt_end(s, i, k);
    rtt_begin(s, i, k) < e && if k < 3 {
        e < s.len() && s[e] == '/'
    } else {
        has_at(s, e, rtt_tail())
    }
}

/// A quartet line starts at `i`.
pub open spec fn rtt_at(s: Seq<char>, i: int) -> bool {
    &&& has_at(s, i, rtt_pattern())
    &&& rtt_field_ok(s, i, 0)
    &&& rtt_field_ok(s, i, 1)
    &&& rtt_field_ok(s, i, 2)
    &&& rtt_field_ok(s, i, 3)
}

pub open spec fn rtt_pred(s: Seq<char>) -> spec_fn(int) -> bool {
    |i: int| rtt_at(s, i)
}

/// Field `k` of the quartet line at `i`, read.
pub open spec fn rtt_value(s: Seq<char>, i: int, k: nat) -> Decimal {
    decimal_or(s.subrange(rtt_begin(s, i, k), rtt_end(s, i, k)), unread_rtt())
}

/// Field `k` of the first quartet line of `s` (0 min, 1 avg, 2 max, 3 mdev).
pub open spec fn rtt_of(s: Seq<char>, k: nat) -> Decimal {
    match first_match(rtt_pred(s), 0, s.len() as int) {
        Some(i) => rtt_value(s, i, k),
        None => unread_rtt(),
    }
}

/// The metrics that the probe output `s` reports; each figure that is
/// missing or unreadable takes its fail-safe default.
pub open spec fn metrics_of(s: Seq<char>) -> PingMetrics {
    PingMetrics {
        packet_loss: loss_of(s),
        time: time_of(s) as i32,
        rtt_min: rtt_of(s, 0),
        rtt_avg: rtt_of(s, 1),
        rtt_max: rtt_of(s, 2),
        rtt_mdev: rtt_of(s, 3),
    }
}

/// Reads `s[start..end]`, a run of digits and points, or gives `dflt`.
fn read_decimal_or(s: &Vec<char>, start: usize, end: usize, dflt: Decimal) -> (r: Decimal)
    requires
        start <= end <= s@.len(),
        forall|j: int| start <= j < end ==> is_digit(#[trigger] s@[j]) || s@[j] == '.',
    ensures
        r == decimal_or(s@.subrange(start as int, end as int), dflt),
{
    assert(is_number_run(s@.subrange(start as int, end as int))) by {
        assert forall|j: int| 0 <= j < end - start implies is_digit(
            #[trigger] s@.subrange(start as int, end as int)[j],
        ) || s@.subrange(start as int, end as int)[j] == '.' by {
            assert(s@.subrange(start as int, end as int)[j] == s@[start + j]);
        }
    }
    match parse_decimal(s, start, end) {
        Some(d) => d,
        None => dflt,
    }
}

/// The packet-loss figure at `i`, if one starts there.
fn loss_read(s: &Vec<char>, i: usize, pat: &Vec<char>) -> (r: Option<Decimal>)
    requires
        i < s@.len(),
        pat@ == loss_pattern(),
    ensures
        r is Some <==> loss_at(s@, i as int),
        r is Some ==> r->0 == decimal_or(
            s@.subrange(i as int, number_run_end(s@, i as int)),
            unread_loss(),
        ),
{
    if !(('0' <= s[i] && s[i] <= '9') || s[i] == '.') {
        return None;
    }
    let e = number_run_end_exec(s, i);
    if !has_at_exec(s, e, pat) {
        return None;
    }
    Some(read_decimal_or(s, i, e, Decimal::whole(UNREAD_LOSS_PERCENT)))
}

/// The total-time figure at `i`, if one starts there.
fn time_read(s: &Vec<char>, i: usize, pat: &Vec<char>, ms: &Vec<char>) -> (r: Option<i32>)
    requires
        i < s@.len(),
        pat@ == time_pattern(),
        ms@ == ms_pattern(),
    ensures
        r is Some <==> time_at(s@, i as int),
        r is Some ==> r->0 == time_value(
            s@.subrange(i + time_pattern().len(), digit_run_end(s@, i + time_pattern().len())),
        ),
{
    let n = s.len();
    if !has_at_exec(s, i, pat) {
        return None;
    }
    let d = i + pat.len();
    if d >= n || !('0' <= s[d] && s[d] <= '9') {
        return None;
    }
    let e = digit_run_end_exec(s, d);
    if !has_at_exec(s, e, ms) {
        return None;
    }
    let v = read_decimal_or(s, d, e, Decimal::whole(0));
    proof {
        lemma_fit_len(s@.subrange(d as int, e as int));
    }
    if v.mantissa <= 2147483647 {
        Some(v.mantissa as i32)
    } else {
        Some(0)
    }
}

/// The four fields of the quartet line at `i`, if one starts there.
fn rtt_read(s: &Vec<char>, i: usize, pat: &Vec<char>, tail: &Vec<char>) -> (r: Option<Vec<Decimal>>)
    requires
        i < s@.len(),
        pat@ == rtt_pattern(),
        tail@ == rtt_tail(),
    ensures
        r is Some <==> rtt_at(s@, i as int),
        r is Some ==> r->0@.len() == 4 && forall|k: nat|
            k < 4 ==> r->0@[k as int] == #[trigger] rtt_value(s@, i as int, k),
{
    let n = s.len();
    if !has_at_exec(s, i, pat) {
        return None;
    }
    let mut fields: Vec<Decimal> = Vec::new();
    let mut b = i + pat.len();
    let mut k: usize = 0;
    while k < 4
        invariant
            has_at(s@, i as int, rtt_pattern()),
            tail@ == rtt_tail(),
            n == s@.len(),
            i < s@.len(),
            k <= 4,
            k < 4 ==> b <= s@.len(),
            k < 4 ==> b == rtt_begin(s@, i as int, k as nat),
            fields@.len() == k,
            forall|j: nat| j < k ==> #[trigger] rtt_field_ok(s@, i as int, j),
            forall|j: nat| j < k ==> fields@[j as int] == #[trigger] rtt_value(s@, i as int, j),
        ensures
            k == 4,
            fields@.len() == 4,
            forall|j: int| 0 <= j < 4 ==> #[trigger] rtt_field_ok(s@, i as int, j as nat),
            forall|j: nat| j < 4 ==> fields@[j as int] == #[trigger] rtt_value(s@, i as int, j),
        decreases 4 - k,
    {
        let e = number_run_end_exec(s, b);
        if e == b {
            assert(!rtt_field_ok(s@, i as int, k as nat));
            return None;
        }
        if k < 3 {
            if e >= n || s[e] != '/' {
                assert(!rtt_field_ok(s@, i as int, k as nat));
                return None;
            }
        } else if !has_at_exec(s, e, tail) {
            assert(!rtt_field_ok(s@, i as int, k as nat));
            return None;
        }
        let v = read_decimal_or(s, b, e, Decimal::whole(UNREAD_RTT_MS));
        fields.push(v);
        if k < 3 {
            b = e + 1;
        }
        k = k + 1;
    }
    assert(rtt_field_ok(s@, i as int, 3));
    Some(fields)
}

/// Reads the metrics out of the text that the probe tool printed. This never
/// fails: a figure that is missing or unreadable takes its default, 100% loss,
/// a time of 0 and round-trip times of 10000 ms.
pub fn parse_ping_metrics(response: &str) -> (m: PingMetrics)
    ensures
        m == metrics_of(response@),
{
    let s = chars_of(response);
    let n = s.len();

    let loss_pat = chars_of("% packet loss");
    let mut packet_loss = Decimal::whole(UNREAD_LOSS_PERCENT);
    let mut i: usize = 0;
    while i < n
        invariant_except_break
            packet_loss == unread_loss(),
        invariant
            n == s@.len(),
            i <= n,
            loss_pat@ == loss_pattern(),
            first_match(loss_pred(s@), 0, n as int) == first_match(loss_pred(s@), i as int, n as int),
        ensures
            packet_loss == loss_of(s@),
        decreases n - i,
    {
        match loss_read(&s, i, &loss_pat) {
            Some(v) => {
                packet_loss = v;
                break;
            },
            None => {},
        }
        i = i + 1;
    }

    let time_pat = chars_of("time ");
    let ms_pat = chars_of("ms");
    let mut time: i32 = 0;
    let mut i: usize = 0;
    while i < n
        invariant_except_break
            time == 0,
        invariant
            n == s@.len(),
            i <= n,
            time_pat@ == time_pattern(),
            ms_pat@ == ms_pattern(),
            first_match(time_pred(s@), 0, n as int) == first_match(time_pred(s@), i as int, n as int),
        ensures
            time == time_of(s@),
        decreases n - i,
    {
        match time_read(&s, i, &time_pat, &ms_pat) {
            Some(v) => {
                time = v;
                break;
            },
            None => {},
        }
        i = i + 1;
    }

    let rtt_pat = chars_of("rtt min/avg/max/mdev = ");
    let rtt_end_pat = chars_of(" ms");
    let unread = Decimal::whole(UNREAD_RTT_MS);
    let mut rtt: Vec<Decimal> = vec![unread, unread, unread, unread];
    let mut i: usize = 0;
    while i < n
        invariant_except_break
            rtt@ == seq![unread_rtt(), unread_rtt(), unread_rtt(), unread_rtt()],
        invariant
            n == s@.len(),
            i <= n,
            rtt_pat@ == rtt_pattern(),
            rtt_end_pat@ == rtt_tail(),
            first_match(rtt_pred(s@), 0, n as int) == first_match(rtt_pred(s@), i as int, n as int),
        ensures
            rtt@.len() == 4,
            forall|k: nat| k < 4 ==> rtt@[k as int] == #[trigger] rtt_of(s@, k),
        decreases n - i,
    {
        match rtt_read(&s, i, &rtt_pat, &rtt_end_pat) {
            Some(v) => {
                rtt = v;
                break;
            },
            None => {},
        }
        i = i + 1;
    }

    proof {
        assert(response@ == s@);
    }
    PingMetrics {
        packet_loss,
        time,
        rtt_min: rtt[0],
        rtt_avg: rtt[1],
        rtt_max: rtt[2],
        rtt_mdev: rtt[3],
    }
}

} // verus!

verus! {

/// Warning and critical limits, and minimum, of each round-trip token.
pub const RTT_LIMITS: &'static str = "ms;3000;5000;0";

/// Warning and critical limits, and minimum, of the packet-loss token.
pub const LOSS_LIMITS: &'static str = "%;80;100;0";

/// Warning and critical limits, and minimum, of the total-time token.
pub const TIME_LIMITS: &'static str = "ms;8500;10000;0";

/// The service type of the checks that this probe reports.
pub const PING_CHECK_TYPE: &'static str = "Passive Ping";

/// The number of echo requests of one probe run.
pub const PING_COUNT: u64 = 8;

pub open spec fn dtext(d: Decimal) -> Seq<char> {
    decimal_text(d.mantissa as nat, d.scale as nat)
}

/// A run is OK when no probe was lost, and CRITICAL otherwise.
pub open spec fn is_ok(m: PingMetrics) -> bool {
    m.packet_loss.mantissa == 0
}

pub open spec fn status_code(m: PingMetrics) -> Seq<char> {
    if is_ok(m) { "0"@ } else { "2"@ }
}

pub open spec fn status_word(m: PingMetrics) -> Seq<char> {
    if is_ok(m) { "OK"@ } else { "CRITICAL"@ }
}

/// `PING <STATUS> - Packet loss = <loss>% AVG = <avg>ms`.
pub open spec fn ping_output_text(m: PingMetrics) -> Seq<char> {
    "PING "@ + status_word(m) + " - Packet loss = "@ + dtext(m.packet_loss) + "% AVG = "@ + dtext(
        m.rtt_avg,
    ) + "ms"@
}

/// The six performance-data tokens of a run, in order.
pub open spec fn ping_perf_tokens(m: PingMetrics) -> Seq<Seq<char>> {
    seq![
        "rtavg="@ + dtext(m.rtt_avg) + RTT_LIMITS@,
        "rtmin="@ + dtext(m.rtt_min) + RTT_LIMITS@,
        "rtmax="@ + dtext(m.rtt_max) + RTT_LIMITS@,
        "rtdev="@ + dtext(m.rtt_mdev) + RTT_LIMITS@,
        "pl="@ + dtext(m.packet_loss) + LOSS_LIMITS@,
        "time="@ + int_text(m.time as int) + TIME_LIMITS@,
    ]
}

fn token(label: &str, value: &String, limits: &str) -> (r: String)
    ensures
        r@ == label@ + value@ + limits@,
{
    let mut out = String::from_str(label);
    out.append(value.as_str());
    out.append(limits);
    out
}

/// Turns the metrics of one run into a check result: OK (`0`) when no probe
/// was lost, CRITICAL (`2`) otherwise, with a summary and six
/// performance-data tokens.
pub fn format_ping_result(metrics: &PingMetrics) -> (r: CheckResult)
    ensures
        opt_view(r.exit_status) == Some(status_code(*metrics)),
        opt_view(r.plugin_output) == Some(ping_output_text(*metrics)),
        opt_view(r.performance_data) == Some(join_with(ping_perf_tokens(*metrics), ',')),
{
    let ok = metrics.packet_loss.is_zero();
    let loss = metrics.packet_loss.to_text();
    let avg = metrics.rtt_avg.to_text();

    let mut output = String::from_str("PING ");
    output.append(if ok { "OK" } else { "CRITICAL" });
    output.append(" - Packet loss = ");
    output.append(loss.as_str());
    output.append("% AVG = ");
    output.append(avg.as_str());
    output.append("ms");

    let mut tokens: Vec<String> = Vec::new();
    tokens.push(token("rtavg=", &avg, RTT_LIMITS));
    tokens.push(token("rtmin=", &metrics.rtt_min.to_text(), RTT_LIMITS));
    tokens.push(token("rtmax=", &metrics.rtt_max.to_text(), RTT_LIMITS));
    tokens.push(token("rtdev=", &metrics.rtt_mdev.to_text(), RTT_LIMITS));
    tokens.push(token("pl=", &loss, LOSS_LIMITS));
    tokens.push(token("time=", &int_to_text(metrics.time), TIME_LIMITS));
    let perf = join_strings(&tokens, ',');
    assert(tokens.deep_view() =~= ping_perf_tokens(*metrics));

    CheckResult {
        exit_status: Some(String::from_str(if ok { "0" } else { "2" })),
        plugin_output: Some(output),
        performance_data: Some(perf),
    }
}

} // verus!

verus! {

/// The status texts `0` and `2` read as the numbers 0 and 2.
pub proof fn lemma_status_codes_read()
    ensures
        int_of("0"@) == Some(0int),
        int_of("2"@) == Some(2int),
{
    reveal_strlit("0");
    reveal_strlit("2");
    let z = "0"@;
    let t = "2"@;
    assert(z.drop_last() =~= seq![]);
    assert(t.drop_last() =~= seq![]);
    assert(digits_value(z.drop_last()) == 0);
    assert(digits_value(t.drop_last()) == 0);
    assert(digits_value(z) == 0);
    assert(digits_value(t) == 2);
    assert(all_digits(z));
    assert(all_digits(t));
}

/// Arguments for the probe tool: `PING_COUNT` echo requests to `host`.
pub fn ping_arguments(host: &str) -> (r: Vec<String>)
    ensures
        r.deep_view() == seq!["-c"@, nat_text(PING_COUNT as nat), host@],
{
    let mut r: Vec<String> = Vec::new();
    r.push(String::from_str("-c"));
    let mut count = String::new();
    push_nat(&mut count, PING_COUNT);
    r.push(count);
    r.push(String::from_str(host));
    assert(r.deep_view() =~= seq!["-c"@, nat_text(PING_COUNT as nat), host@]);
    r
}

/// What is sent to the monitoring server for one probe run on the host
/// `check_source`, reported as the check `Passive Ping: <check_name>`, given
/// what the probe tool printed.
pub fn ping_host(check_source: &str, check_name: &str, ping_output: &str) -> (p: CheckPayload)
    ensures
        p.kind@ == "Service"@,
        p.filter@ == filter_text(check_source@, PING_CHECK_TYPE@, check_name@),
        p.exit_status == if is_ok(metrics_of(ping_output@)) { 0int } else { 2int },
        p.plugin_output@ == ping_output_text(metrics_of(ping_output@)),
        p.performance_data.deep_view() == ping_perf_tokens(metrics_of(ping_output@)),
        p.check_source@ == check_source@,
{
    let metrics = parse_ping_metrics(ping_output);
    let result = format_ping_result(&metrics);
    proof {
        lemma_status_codes_read();
        lemma_ping_perf_round_trip(metrics);
    }
    format_check_payload(check_source, PING_CHECK_TYPE, check_name, &result)
}

} // verus!

verus! {

/// Every character of `t` is a digit, a point or a minus sign.
pub open spec fn numeric_chars(t: Seq<char>) -> bool {
    forall|i: int| 0 <= i < t.len() ==> is_digit(#[trigger] t[i]) || t[i] == '.' || t[i] == '-'
}

proof fn lemma_nat_text_numeric(n: nat)
    ensures
        numeric_chars(nat_text(n)),
    decreases n,
{
    if n >= 10 {
        lemma_nat_text_numeric(n / 10);
    }
}

proof fn lemma_frac_digits_numeric(m: nat, e: nat)
    ensures
        numeric_chars(frac_digits(m, e)),
    decreases e,
{
    if e > 0 {
        lemma_frac_digits_numeric(m / 10, (e - 1) as nat);
    }
}

proof fn lemma_concat_numeric(a: Seq<char>, b: Seq<char>)
    requires
        numeric_chars(a),
        numeric_chars(b),
    ensures
        numeric_chars(a + b),
{
    assert forall|i: int| 0 <= i < (a + b).len() implies is_digit(#[trigger] (a + b)[i]) || (a
        + b)[i] == '.' || (a + b)[i] == '-' by {
        if i < a.len() {
            assert((a + b)[i] == a[i]);
        } else {
            assert((a + b)[i] == b[i - a.len()]);
        }
    }
}

pub proof fn lemma_dtext_numeric(d: Decimal)
    ensures
        numeric_chars(dtext(d)),
{
    let (m2, e2) = strip_zeros(d.mantissa as nat, d.scale as nat);
    if e2 == 0 {
        lemma_nat_text_numeric(m2);
    } else {
        lemma_nat_text_numeric(int_part(m2, e2));
        lemma_frac_digits_numeric(m2, e2);
        lemma_concat_numeric(nat_text(int_part(m2, e2)), seq!['.']);
        lemma_concat_numeric(nat_text(int_part(m2, e2)) + seq!['.'], frac_digits(m2, e2));
    }
}

proof fn lemma_int_text_numeric(v: int)
    ensures
        numeric_chars(int_text(v)),
{
    if v < 0 {
        lemma_nat_text_numeric((-v) as nat);
        lemma_concat_numeric(seq!['-'], nat_text((-v) as nat));
    } else {
        lemma_nat_text_numeric(v as nat);
    }
}

/// A token `label + value + limits` whose value is numeric, whose label and
/// limits hold no comma, and which neither starts nor ends with white space,
/// holds no comma and is its own trimmed form.
proof fn lemma_token_clean(label: Seq<char>, value: Seq<char>, limits: Seq<char>)
    requires
        numeric_chars(value),
        !label.contains(','),
        !limits.contains(','),
        label.len() > 0 && !is_space(label[0]),
        limits.len() > 0 && !is_space(limits.last()),
    ensures
        !(label + value + limits).contains(','),
        trimmed(label + value + limits) == label + value + limits,
{
    let t = label + value + limits;
    assert(!t.contains(',')) by {
        if t.contains(',') {
            let k = choose|k: int| 0 <= k < t.len() && t[k] == ',';
            if k < label.len() {
                assert(t[k] == label[k]);
            } else if k < label.len() + value.len() {
                assert(t[k] == value[k - label.len()]);
            } else {
                assert(t[k] == limits[k - label.len() - value.len()]);
            }
        }
    }
    assert(t[0] == label[0]);
    assert(t[t.len() - 1] == limits.last());
    assert(trim_start_at(t, 0) == 0);
    assert(trim_end_at(t, t.len() as int, 0) == t.len());
    assert(t.subrange(0, t.len() as int) =~= t);
}

/// The six tokens come out of the payload builder as they went in.
pub proof fn lemma_ping_perf_round_trip(m: PingMetrics)
    ensures
        perf_tokens(join_with(ping_perf_tokens(m), ',')) == ping_perf_tokens(m),
{
    reveal_strlit("rtavg=");
    reveal_strlit("rtmin=");
    reveal_strlit("rtmax=");
    reveal_strlit("rtdev=");
    reveal_strlit("pl=");
    reveal_strlit("time=");
    reveal_strlit("ms;3000;5000;0");
    reveal_strlit("%;80;100;0");
    reveal_strlit("ms;8500;10000;0");
    lemma_dtext_numeric(m.rtt_avg);
    lemma_dtext_numeric(m.rtt_min);
    lemma_dtext_numeric(m.rtt_max);
    lemma_dtext_numeric(m.rtt_mdev);
    lemma_dtext_numeric(m.packet_loss);
    lemma_int_text_numeric(m.time as int);
    lemma_token_clean("rtavg="@, dtext(m.rtt_avg), RTT_LIMITS@);
    lemma_token_clean("rtmin="@, dtext(m.rtt_min), RTT_LIMITS@);
    lemma_token_clean("rtmax="@, dtext(m.rtt_max), RTT_LIMITS@);
    lemma_token_clean("rtdev="@, dtext(m.rtt_mdev), RTT_LIMITS@);
    lemma_token_clean("pl="@, dtext(m.packet_loss), LOSS_LIMITS@);
    lemma_token_clean("time="@, int_text(m.time as int), TIME_LIMITS@);
    let tokens = ping_perf_tokens(m);
    assert forall|k: int| 0 <= k < tokens.len() implies !(#[trigger] tokens[k]).contains(',') by {
    }
    law_performance_round_trip(tokens);
    assert(tokens.map_values(|t: Seq<char>| trimmed(t)) =~= tokens);
}

} // verus!
