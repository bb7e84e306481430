use vstd::prelude::*;
use crate::text::{nat_text, push_nat};

verus! {

/// The one HTTP status that means the server took the result.
pub const HTTP_OK: u16 = 200;

pub open spec fn success_line(source: Seq<char>, name: Seq<char>, host: Seq<char>) -> Seq<char> {
    "Successfully sent passive check result for host "@ + source + " check "@ + name + " host "@
        + host
}

/// `Status: <code>`, then the reason phrase where there is one.
pub open spec fn status_line(code: u16, reason: Seq<char>) -> Seq<char> {
    "Status: "@ + nat_text(code as nat) + if reason.len() == 0 {
        Seq::<char>::empty()
    } else {
        " "@ + reason
    }
}

pub open spec fn failure_lines(
    source: Seq<char>,
    name: Seq<char>,
    host: Seq<char>,
    code: u16,
    reason: Seq<char>,
    body: Seq<char>,
    payload_text: Seq<char>,
) -> Seq<Seq<char>> {
    seq![
        "Failed to send passive check result for host "@ + source + " check "@ + name + " host "@
            + host,
        status_line(code, reason),
        "Response body: "@ + body,
        "Request data was: "@ + payload_text,
    ]
}

/// The lines that report how one submission went. Status 200 is success and
/// gives one line naming the host, the check and the probed host. Any other
/// status is a failure and gives four lines: who, the status code with its
/// reason phrase (`reason`, possibly empty), the full
/// response body, and the payload as it was sent (`payload_text`), so that
/// it can be checked or sent again by hand.
pub fn submission_report(
    check_source: &str,
    check_name: &str,
    check_host: &str,
    status_code: u16,
    reason: &str,
    body: &str,
    payload_text: &str,
) -> (lines: Vec<String>)
    ensures
        status_code == HTTP_OK ==> lines.deep_view() == seq![
            success_line(check_source@, check_name@, check_host@),
        ],
        status_code != HTTP_OK ==> lines.deep_view() == failure_lines(
            check_source@,
            check_name@,
            check_host@,
            status_code,
            reason@,
            body@,
            payload_text@,
        ),
{
    let mut lines: Vec<String> = Vec::new();
    if status_code == HTTP_OK {
        let mut line = String::from_str("Successfully sent passive check result for host ");
        line.append(check_source);
        line.append(" check ");
        line.append(check_name);
        line.append(" host ");
        line.append(check_host);
        lines.push(line);
        assert(lines.deep_view() =~= seq![success_line(check_source@, check_name@, check_host@)]);
    } else {
        let mut line = String::from_str("Failed to send passive check result for host ");
        line.append(check_source);
        line.append(" check ");
        line.append(check_name);
        line.append(" host ");
        line.append(check_host);
        lines.push(line);
        let mut status = String::from_str("Status: ");
        push_nat(&mut status, status_code as u64);
        if !reason.is_empty() {
            status.append(" ");
            status.append(reason);
        }
        assert(status@ =~= status_line(status_code, reason@));
        lines.push(status);
        let mut response = String::from_str("Response body: ");
        response.append(body);
        lines.push(response);
        let mut request = String::from_str("Request data was: ");
        request.append(payload_text);
        lines.push(request);
        assert(lines.deep_view() =~= failure_lines(
            check_source@,
            check_name@,
            check_host@,
            status_code,
            reason@,
            body@,
            payload_text@,
        ));
    }
    lines
}

} // verus!
