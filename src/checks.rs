use vstd::prelude::*;
use crate::decimal::{digits_value, lemma_digits_value_grows};
use crate::text::{
    chars_of, exec_digit_value, is_digit, split_chars, split_on, trim_chars, trimmed,
};

verus! {

/// Exit status reported when a result gives none that can be read (UNKNOWN).
pub const DEFAULT_EXIT_STATUS: i32 = 3;

/// The outcome of one check, as the monitoring server reads it.
pub struct CheckResult {
    /// The status as text: `0` OK, `1` WARNING, `2` CRITICAL, `3` UNKNOWN.
    pub exit_status: Option<String>,
    /// A summary for people.
    pub plugin_output: Option<String>,
    /// Comma-joined `label=value;warn;crit;min` tokens.
    pub performance_data: Option<String>,
}

/// What the monitoring server's API is sent for one check.
pub struct CheckPayload {
    /// Always `Service`.
    pub kind: String,
    pub filter: String,
    pub exit_status: i32,
    pub plugin_output: String,
    pub performance_data: Vec<String>,
    pub check_source: String,
}

pub open spec fn opt_view(o: Option<String>) -> Option<Seq<char>> {
    match o {
        Some(s) => Some(s@),
        None => None,
    }
}

/// Is every character of `t` a digit.
pub open spec fn all_digits(t: Seq<char>) -> bool {
    forall|i: int| 0 <= i < t.len() ==> is_digit(#[trigger] t[i])
}

/// What `t` reads as as an `i32`: an optional `+` or `-`, then one digit or
/// more, and a value in range.
pub open spec fn int_of(t: Seq<char>) -> Option<int> {
    let neg = t.len() > 0 && t[0] == '-';
    let d = if t.len() > 0 && (t[0] == '-' || t[0] == '+') { t.drop_first() } else { t };
    let v = if neg { -(digits_value(d) as int) } else { digits_value(d) as int };
    if d.len() > 0 && all_digits(d) && i32::MIN <= v <= i32::MAX {
        Some(v)
    } else {
        None
    }
}

/// The exit status that a result gives, UNKNOWN where it has none that reads.
pub open spec fn exit_status_of(r: Option<Seq<char>>) -> int {
    match r {
        Some(t) => match int_of(t) {
            Some(v) => v,
            None => DEFAULT_EXIT_STATUS as int,
        },
        None => DEFAULT_EXIT_STATUS as int,
    }
}

/// The summary that a result gives, or a placeholder.
pub open spec fn output_of(r: Option<Seq<char>>) -> Seq<char> {
    match r {
        Some(t) => t,
        None => "No output provided"@,
    }
}

/// The tokens of comma-joined performance data, each trimmed.
pub open spec fn perf_tokens(t: Seq<char>) -> Seq<Seq<char>> {
    split_on(t, ',').map_values(|p: Seq<char>| trimmed(p))
}

/// The performance-data tokens of a result; none where it has no data.
pub open spec fn perf_of(r: Option<Seq<char>>) -> Seq<Seq<char>> {
    match r {
        Some(t) => perf_tokens(t),
        None => seq![],
    }
}

/// The expression that picks the service `<check_type>: <check_name>` of the host `check_source`.
pub open spec fn filter_text(source: Seq<char>, check_type: Seq<char>, name: Seq<char>) -> Seq<char> {
    "host.name==\""@ + source + "\" && service.name==\""@ + check_type + ": "@ + name + "\""@
}

/// Reads `s` as an `i32` as `str::parse` does.
pub fn parse_int(s: &str) -> (r: Option<i32>)
    ensures
        match int_of(s@) {
            Some(v) => r == Some(v as i32),
            None => r is None,
        },
{
    let t = chars_of(s);
    let n = t.len();
    let neg = n > 0 && t[0] == '-';
    let start: usize = if n > 0 && (t[0] == '-' || t[0] == '+') { 1 } else { 0 };
    let ghost d = if n > 0 && (t@[0] == '-' || t@[0] == '+') { t@.drop_first() } else { t@ };
    assert(d =~= t@.subrange(start as int, n as int));
    if start == n {
        return None;
    }
    let mut val: u64 = 0;
    let mut i = start;
    while i < n
        invariant
            start <= i <= n == t@.len(),
            t@ == s@,
            d == t@.subrange(start as int, n as int),
            d == (if n > 0 && (t@[0] == '-' || t@[0] == '+') { t@.drop_first() } else { t@ }),
            neg == (n > 0 && t@[0] == '-'),
            val <= 2147483648,
            val == digits_value(t@.subrange(start as int, i as int)),
            all_digits(t@.subrange(start as int, i as int)),
        decreases n - i,
    {
        let c = t[i];
        let ghost p = t@.subrange(start as int, i as int);
        assert(t@.subrange(start as int, i + 1) =~= p.push(c));
        assert(p.push(c).drop_last() =~= p);
        if !('0' <= c && c <= '9') {
            assert(d[i - start] == c);
            assert(!all_digits(d));
            assert(s@ == t@);
            return None;
        }
        let dv = exec_digit_value(c);
        if val > 214748364 || val * 10 + dv > 2147483648 {
            assert(val * 10 + dv > 2147483648) by (nonlinear_arith)
                requires val > 214748364 || val * 10 + dv > 2147483648;
            assert(digits_value(p.push(c)) > 2147483648);
            assert(s@ == t@);
            assert(digits_value(d) >= digits_value(t@.subrange(start as int, i + 1))) by {
                lemma_digits_value_grows(t@.subrange(start as int, n as int), (i + 1 - start) as int);
                assert(t@.subrange(start as int, n as int).take(i + 1 - start) =~= t@.subrange(start as int, i + 1));
            }
            return None;
        }
        val = val * 10 + dv;
        i = i + 1;
    }
    assert(t@.subrange(start as int, n as int) =~= d);
    if neg {
        Some((0 - val as i64) as i32)
    } else if val <= 2147483647 {
        Some(val as i32)
    } else {
        None
    }
}

/// Splits comma-joined performance data into its tokens, each trimmed; no
/// data gives no tokens.
pub fn parse_performance_data(perf_data: Option<&String>) -> (r: Vec<String>)
    ensures
        r.deep_view() == perf_of(
            match perf_data {
                Some(s) => Some(s@),
                None => None,
            },
        ),
{
    let data = match perf_data {
        Some(s) => s,
        None => {
            let r: Vec<String> = Vec::new();
            assert(r.deep_view() =~= seq![]);
            return r;
        },
    };
    let t = chars_of(data.as_str());
    let pieces = split_chars(&t, ',');
    let mut out: Vec<String> = Vec::new();
    let mut i: usize = 0;
    while i < pieces.len()
        invariant
            i <= pieces@.len(),
            pieces.deep_view() == split_on(t@, ','),
            out@.len() == i,
            forall|k: int| 0 <= k < i ==> #[trigger] out@[k]@ == trimmed(pieces@[k]@),
        decreases pieces@.len() - i,
    {
        let piece = trim_chars(&chars_of(pieces[i].as_str()));
        out.push(piece);
        i = i + 1;
    }
    proof {
        assert(data@ == t@);
        assert forall|k: int| 0 <= k < pieces@.len() implies pieces@[k]@ == #[trigger] split_on(t@, ',')[k] by {
            assert(pieces.deep_view()[k] == pieces@[k]@);
        }
    }
    assert(out.deep_view() =~= split_on(t@, ',').map_values(|p: Seq<char>| trimmed(p)));
    out
}

/// Builds what is sent to the monitoring server for the result `check_data`
/// of the check `check_type: check_name` on the host `check_source`.
pub fn format_check_payload(
    check_source: &str,
    check_type: &str,
    check_name: &str,
    check_data: &CheckResult,
) -> (p: CheckPayload)
    ensures
        p.kind@ == "Service"@,
        p.filter@ == filter_text(check_source@, check_type@, check_name@),
        p.exit_status == exit_status_of(opt_view(check_data.exit_status)),
        p.plugin_output@ == output_of(opt_view(check_data.plugin_output)),
        p.performance_data.deep_view() == perf_of(opt_view(check_data.performance_data)),
        p.check_source@ == check_source@,
{
    let mut filter = String::from_str("host.name==\"");
    filter.append(check_source);
    filter.append("\" && service.name==\"");
    filter.append(check_type);
    filter.append(": ");
    filter.append(check_name);
    filter.append("\"");

    let exit_status = match &check_data.exit_status {
        Some(s) => match parse_int(s.as_str()) {
            Some(v) => v,
            None => DEFAULT_EXIT_STATUS,
        },
        None => DEFAULT_EXIT_STATUS,
    };

    let plugin_output = match &check_data.plugin_output {
        Some(s) => s.clone(),
        None => String::from_str("No output provided"),
    };

    let performance_data = match &check_data.performance_data {
        Some(s) => parse_performance_data(Some(s)),
        None => parse_performance_data(None),
    };

    CheckPayload {
        kind: String::from_str("Service"),
        filter,
        exit_status,
        plugin_output,
        performance_data,
        check_source: String::from_str(check_source),
    }
}

} // verus!
