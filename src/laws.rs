use vstd::prelude::*;
use crate::checks::{perf_of, perf_tokens};
use crate::decimal::{decimal_of, digits_value, dot_count, fit_len, lemma_fit_len};
use crate::pings::{
    dtext, lemma_dtext_numeric, loss_pred, loss_of, metrics_of, ping_output_text, rtt_begin, rtt_end,
    rtt_of, rtt_pred, rtt_value, status_code, time_of, time_pred, unread_loss, unread_rtt,
    PingMetrics,
};
use crate::scan::{first_match, has_at, number_run_end};
use crate::text::{digit_value, is_digit, join_with, lemma_split_join, trimmed};

verus! {

/// A position that `first_match` gives satisfies the predicate, in range.
pub proof fn lemma_first_match_sound(p: spec_fn(int) -> bool, i: int, n: int)
    ensures
        first_match(p, i, n) matches Some(k) ==> i <= k < n && p(k),
    decreases n - i,
{
    if i < n && !p(i) {
        lemma_first_match_sound(p, i + 1, n);
    }
}

/// Where no position in range satisfies the predicate, `first_match` gives none.
pub proof fn lemma_first_match_none(p: spec_fn(int) -> bool, i: int, n: int)
    requires
        forall|k: int| i <= k < n ==> !#[trigger] p(k),
    ensures
        first_match(p, i, n) is None,
    decreases n - i,
{
    if i < n {
        lemma_first_match_none(p, i + 1, n);
    }
}

/// Text made of points alone reads as no number.
proof fn lemma_points_only(t: Seq<char>)
    requires
        forall|j: int| 0 <= j < t.len() ==> #[trigger] t[j] == '.',
    ensures
        dot_count(t) == t.len(),
    decreases t.len(),
{
    if t.len() > 0 {
        assert forall|j: int| 0 <= j < t.drop_last().len() implies #[trigger] t.drop_last()[j] == '.' by {
            assert(t.drop_last()[j] == t[j]);
        }
        lemma_points_only(t.drop_last());
        assert(t.last() == t[t.len() - 1]);
    }
}

/// The end of a run of digits and points is never before its start.
proof fn lemma_number_run_end_bounds(s: Seq<char>, i: int)
    requires
        0 <= i <= s.len(),
    ensures
        i <= number_run_end(s, i) <= s.len(),
        forall|j: int| i <= j < number_run_end(s, i) ==> is_digit(#[trigger] s[j]) || s[j] == '.',
    decreases s.len() - i,
{
    if i < s.len() && (is_digit(s[i]) || s[i] == '.') {
        lemma_number_run_end_bounds(s, i + 1);
    }
}

/// Performance data survives joining and splitting: the comma-joined text of
/// one token or more, none of which holds a comma, splits back into those
/// tokens, each trimmed, in their order.
pub proof fn law_performance_round_trip(tokens: Seq<Seq<char>>)
    requires
        tokens.len() >= 1,
        forall|k: int| 0 <= k < tokens.len() ==> !(#[trigger] tokens[k]).contains(','),
    ensures
        perf_of(Some(join_with(tokens, ','))) == tokens.map_values(|t: Seq<char>| trimmed(t)),
{
    lemma_split_join(tokens, ',');
    assert(perf_tokens(join_with(tokens, ',')) =~= tokens.map_values(|t: Seq<char>| trimmed(t)));
}

/// A run that reports no loss is OK: when the first packet-loss figure of the
/// probe output is `0% packet loss`, the status is `0` and the summary begins
/// with `PING OK`.
pub proof fn law_lossless_run_is_ok(s: Seq<char>, k: int)
    requires
        has_at(s, k, "0% packet loss"@),
        first_match(loss_pred(s), 0, s.len() as int) == Some(k),
    ensures
        status_code(metrics_of(s)) == "0"@,
        has_at(ping_output_text(metrics_of(s)), 0, "PING OK"@),
{
    reveal_strlit("0% packet loss");
    reveal_strlit("PING ");
    reveal_strlit("OK");
    reveal_strlit("PING OK");
    assert(s.subrange(k, k + 14)[0] == s[k]);
    assert(s.subrange(k, k + 14)[1] == s[k + 1]);
    assert(s[k] == '0');
    assert(s[k + 1] == '%');
    assert(number_run_end(s, k + 1) == k + 1);
    assert(number_run_end(s, k) == k + 1);
    let t = s.subrange(k, k + 1);
    assert(t.drop_last() =~= seq![]);
    assert(t.last() == '0');
    assert(dot_count(t) == 0);
    assert(digits_value(t.drop_last()) == 0);
    assert(digits_value(t) == 0);
    assert(fit_len(t) == 1);
    assert(t.take(1) =~= t);
    assert(decimal_of(t) == Some((0nat, crate::decimal::frac_len(t))));
    assert(loss_of(s).mantissa == 0);
    let m = metrics_of(s);
    assert(ping_output_text(m).subrange(0, 7) =~= "PING OK"@);
}

/// Loss of every probe is CRITICAL: when the first packet-loss figure of the
/// probe output ends in `100% packet loss`, the status is `2` and the summary
/// begins with `PING CRITICAL`.
pub proof fn law_total_loss_is_critical(s: Seq<char>, j: int, k: int)
    requires
        first_match(loss_pred(s), 0, s.len() as int) == Some(j),
        j <= k,
        number_run_end(s, j) == k + 3,
        has_at(s, k, "100% packet loss"@),
    ensures
        status_code(metrics_of(s)) == "2"@,
        has_at(ping_output_text(metrics_of(s)), 0, "PING CRITICAL"@),
{
    reveal_strlit("100% packet loss");
    let t = s.subrange(j, k + 3);
    assert(s.subrange(k, k + 16)[0] == s[k]);
    assert(s[k] == '1');
    assert(s.subrange(k, k + 16)[1] == s[k + 1]);
    assert(s.subrange(k, k + 16)[2] == s[k + 2]);
    assert(t.last() == s[k + 2]);
    assert(t.drop_last().last() == s[k + 1]);
    assert(t.drop_last().drop_last().last() == s[k]);
    let t1 = t.drop_last();
    let t2 = t1.drop_last();
    assert(t2.last() == '1');
    assert(digits_value(t2) == digits_value(t2.drop_last()) * 10 + 1);
    assert(digits_value(t1) == digits_value(t2) * 10);
    assert(digits_value(t) == digits_value(t1) * 10);
    assert(digits_value(t) >= 100);
    lemma_loss_nonzero(s, j, k + 3);
    law_any_loss_is_critical(metrics_of(s));
}

/// Output without any packet-loss figure counts as total loss: the status is
/// `2` and the summary begins with `PING CRITICAL`.
pub proof fn law_missing_loss_is_critical(s: Seq<char>)
    requires
        first_match(loss_pred(s), 0, s.len() as int) is None,
    ensures
        status_code(metrics_of(s)) == "2"@,
        has_at(ping_output_text(metrics_of(s)), 0, "PING CRITICAL"@),
{
    law_any_loss_is_critical(metrics_of(s));
}

proof fn lemma_loss_nonzero(s: Seq<char>, j: int, e: int)
    requires
        first_match(loss_pred(s), 0, s.len() as int) == Some(j),
        0 <= j <= e <= s.len(),
        number_run_end(s, j) == e,
        digits_value(s.subrange(j, e)) > 0,
    ensures
        loss_of(s).mantissa != 0,
{
    let t = s.subrange(j, e);
    lemma_number_run_end_bounds(s, j);
    lemma_fit_len(t);
    let f = fit_len(t) as int;
    if decimal_of(t) is Some {
        if f == t.len() {
            assert(t.take(f) =~= t);
        } else {
            let c = t[f];
            assert(c == s[j + f]);
            assert(t.take(f + 1) =~= t.take(f).push(c));
            assert(t.take(f).push(c).drop_last() =~= t.take(f));
            if c != '.' {
                assert(digit_value(c) <= 9);
                assert(digits_value(t.take(f)) > 0);
            }
        }
    }
}

/// No partial-loss tier: any loss at all is CRITICAL, with status `2` and a
/// summary that begins with `PING CRITICAL`.
pub proof fn law_any_loss_is_critical(m: PingMetrics)
    requires
        m.packet_loss.mantissa != 0,
    ensures
        status_code(m) == "2"@,
        has_at(ping_output_text(m), 0, "PING CRITICAL"@),
{
    reveal_strlit("PING ");
    reveal_strlit("CRITICAL");
    reveal_strlit("PING CRITICAL");
    assert(ping_output_text(m).subrange(0, 13) =~= "PING CRITICAL"@);
}

/// No partial-loss tier, on the summary: with any loss at all, `PING OK`
/// occurs nowhere in it.
pub proof fn law_lossy_summary_never_ok(m: PingMetrics)
    requires
        m.packet_loss.mantissa != 0,
    ensures
        forall|i: int| !has_at(ping_output_text(m), i, "PING OK"@),
{
    reveal_strlit("PING ");
    reveal_strlit("CRITICAL");
    reveal_strlit(" - Packet loss = ");
    reveal_strlit("% AVG = ");
    reveal_strlit("ms");
    reveal_strlit("PING OK");
    let a = "PING "@ + "CRITICAL"@ + " - Packet loss = "@;
    let b = dtext(m.packet_loss) + "% AVG = "@ + dtext(m.rtt_avg) + "ms"@;
    let text = ping_output_text(m);
    assert(text =~= a + b);
    assert(a.len() == 30);
    lemma_dtext_numeric(m.packet_loss);
    lemma_dtext_numeric(m.rtt_avg);
    let pct = "% AVG = "@;
    let ms = "ms"@;
    assert forall|k: int| 0 <= k < pct.len() implies #[trigger] pct[k] != 'P' by {}
    assert forall|k: int| 0 <= k < ms.len() implies #[trigger] ms[k] != 'P' by {}
    assert forall|k: int| 0 <= k < b.len() implies #[trigger] b[k] != 'P' by {
        let l1 = dtext(m.packet_loss).len();
        let l2 = l1 + pct.len();
        let l3 = l2 + dtext(m.rtt_avg).len();
        if k < l1 {
            assert(b[k] == dtext(m.packet_loss)[k]);
        } else if k < l2 {
            assert(b[k] == pct[k - l1]);
        } else if k < l3 {
            assert(b[k] == dtext(m.rtt_avg)[k - l2]);
        } else {
            assert(b[k] == ms[k - l3]);
        }
    }
    assert forall|k: int| 0 <= k < a.len() && a[k] == 'P' implies k == 0 || k == 16 by {}
    assert forall|i: int| !has_at(text, i, "PING OK"@) by {
        if has_at(text, i, "PING OK"@) {
            assert(text.subrange(i, i + 7)[0] == text[i]);
            assert(text[i] == 'P');
            if i >= 30 {
                assert(text[i] == b[i - 30]);
            } else {
                assert(text[i] == a[i]);
                assert(text.subrange(i, i + 7)[5] == text[i + 5]);
                assert(text[i + 5] == a[i + 5]);
            }
        }
    }
}

/// Output with no digit in it, the empty text among them, reads as the
/// fail-safe defaults: 100% loss, a time of 0, round-trip times of 10000 ms.
pub proof fn law_unreadable_output_gives_defaults(s: Seq<char>)
    requires
        forall|i: int| 0 <= i < s.len() ==> !is_digit(#[trigger] s[i]),
    ensures
        metrics_of(s) == (PingMetrics {
            packet_loss: unread_loss(),
            time: 0,
            rtt_min: unread_rtt(),
            rtt_avg: unread_rtt(),
            rtt_max: unread_rtt(),
            rtt_mdev: unread_rtt(),
        }),
{
    let n = s.len() as int;
    lemma_first_match_sound(loss_pred(s), 0, n);
    if let Some(i) = first_match(loss_pred(s), 0, n) {
        lemma_number_run_end_bounds(s, i);
        let t = s.subrange(i, number_run_end(s, i));
        assert forall|j: int| 0 <= j < t.len() implies #[trigger] t[j] == '.' by {
            assert(t[j] == s[i + j]);
            assert(!is_digit(s[i + j]));
        }
        lemma_points_only(t);
    }
    assert(loss_of(s) == unread_loss());
    assert forall|i: int| 0 <= i < n implies !(#[trigger] time_pred(s)(i)) by {
        let d = i + crate::pings::time_pattern().len();
        if 0 <= d < n {
            assert(!is_digit(s[d]));
        }
    }
    lemma_first_match_none(time_pred(s), 0, n);
    assert(time_of(s) == 0);
    lemma_first_match_sound(rtt_pred(s), 0, n);
    assert forall|f: nat| f < 4 implies #[trigger] rtt_of(s, f) == unread_rtt() by {
        if let Some(i) = first_match(rtt_pred(s), 0, n) {
            let b = rtt_begin(s, i, f);
            let e = rtt_end(s, i, f);
            assert(rtt_value(s, i, f) == unread_rtt()) by {
                assert(f == 0 || f == 1 || f == 2 || f == 3);
                assert(crate::pings::rtt_field_ok(s, i, f));
                if 0 <= b < s.len() {
                    lemma_number_run_end_bounds(s, b);
                    let t = s.subrange(b, e);
                    assert forall|j: int| 0 <= j < t.len() implies #[trigger] t[j] == '.' by {
                        assert(t[j] == s[b + j]);
                        assert(!is_digit(s[b + j]));
                    }
                    lemma_points_only(t);
                } else {
                    assert(e == b);
                }
            }
        }
    }
}

} // verus!
