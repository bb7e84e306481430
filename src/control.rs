use vstd::prelude::*;
use crate::checks::{opt_view, CheckResult};
use crate::text::{chars_of, split_chars, split_on, trim_chars, trimmed};

verus! {

/// Where the control socket listens.
pub const SOCKET_PATH: &'static str = "/tmp/icinga_checks.sock";

/// The service type of checks reported by hand.
pub const MANUAL_CHECK_TYPE: &'static str = "Passive Command";

/// The host recorded for checks reported by hand.
pub const MANUAL_CHECK_HOST: &'static str = "127.0.0.1";

/// The reply to a report that was handled.
pub const REPORT_SENT: &'static str = "report sent";

/// The reply to anything else.
pub const UNKNOWN_COMMAND: &'static str =
    "unknown command (valid: status, ping, report|<source>|<name>|<exit_status>|<output>)";

/// A check result handed in by hand: `report|<source>|<name>|<exit_status>|<output>`.
pub struct ManualReport {
    pub check_source: String,
    pub check_name: String,
    pub exit_status: String,
    pub plugin_output: String,
}

/// The fields of a command: the text, trimmed, split at each `|`.
pub open spec fn command_fields(c: Seq<char>) -> Seq<Seq<char>> {
    split_on(trimmed(c), '|')
}

/// A command is a report when it has exactly five fields, the first `report`.
pub open spec fn is_report(c: Seq<char>) -> bool {
    command_fields(c).len() == 5 && command_fields(c)[0] == "report"@
}

/// Reads a command sent to the control socket: a report gives its fields,
/// anything else gives none.
pub fn parse_command(command: &str) -> (r: Option<ManualReport>)
    ensures
        r is Some <==> is_report(command@),
        r matches Some(m) ==> {
            &&& m.check_source@ == command_fields(command@)[1]
            &&& m.check_name@ == command_fields(command@)[2]
            &&& m.exit_status@ == command_fields(command@)[3]
            &&& m.plugin_output@ == command_fields(command@)[4]
        },
{
    let trimmed_text = trim_chars(&chars_of(command));
    let fields = split_chars(&chars_of(trimmed_text.as_str()), '|');
    proof {
        assert(fields.deep_view() == command_fields(command@));
        assert(fields.deep_view().len() == fields@.len());
    }
    if fields.len() != 5 {
        return None;
    }
    let word = String::from_str("report");
    assert(fields.deep_view()[0] == fields@[0]@);
    if fields[0] != word {
        return None;
    }
    assert(fields.deep_view()[1] == fields@[1]@);
    assert(fields.deep_view()[2] == fields@[2]@);
    assert(fields.deep_view()[3] == fields@[3]@);
    assert(fields.deep_view()[4] == fields@[4]@);
    Some(ManualReport {
        check_source: fields[1].clone(),
        check_name: fields[2].clone(),
        exit_status: fields[3].clone(),
        plugin_output: fields[4].clone(),
    })
}

/// What the control socket answers to a command.
pub fn command_response(report: &Option<ManualReport>) -> (r: &'static str)
    ensures
        report is Some ==> r@ == REPORT_SENT@,
        report is None ==> r@ == UNKNOWN_COMMAND@,
{
    match report {
        Some(_) => REPORT_SENT,
        None => UNKNOWN_COMMAND,
    }
}

/// The check result that a report stands for: its status and output, and no
/// performance data.
pub fn manual_check_result(report: &ManualReport) -> (r: CheckResult)
    ensures
        opt_view(r.exit_status) == Some(report.exit_status@),
        opt_view(r.plugin_output) == Some(report.plugin_output@),
        r.performance_data is None,
{
    CheckResult {
        exit_status: Some(report.exit_status.clone()),
        plugin_output: Some(report.plugin_output.clone()),
        performance_data: None,
    }
}

} // verus!
