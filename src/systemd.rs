use vstd::prelude::*;
use crate::text::{join_strings, join_with};

verus! {

/// The lines of the service unit that runs `<exec_start> --daemon`.
pub open spec fn unit_lines(description: Seq<char>, exec_start: Seq<char>) -> Seq<Seq<char>> {
    seq![
        "[Unit]"@,
        "Description="@ + description,
        "After=network-online.target"@,
        "Requires=network-online.target"@,
        seq![],
        "[Service]"@,
        "ExecStart="@ + exec_start + " --daemon"@,
        "DynamicUser=true"@,
        "NoNewPrivileges=true"@,
        "ProtectSystem=strict"@,
        "ProtectHome=true"@,
        "PrivateDevices=true"@,
        "PrivateTmp=true"@,
        "RestrictSUIDSGID=true"@,
        "RestrictNamespaces=true"@,
        "RuntimeDirectory=icinga_passive_checks"@,
        seq![],
        "[Install]"@,
        "WantedBy=multi-user.target"@,
    ]
}

fn line(text: &str) -> (r: String)
    ensures
        r@ == text@,
{
    String::from_str(text)
}

/// A systemd unit file, sections `[Unit]`, `[Service]` and `[Install]` in
/// that order, each line `key=value`, a blank line between sections and no
/// trailing newline.
pub fn generate_unit_content(description: &str, exec_start: &str) -> (r: String)
    ensures
        r@ == join_with(unit_lines(description@, exec_start@), '\n'),
{
    let mut lines: Vec<String> = Vec::new();
    lines.push(line("[Unit]"));
    let mut d = String::from_str("Description=");
    d.append(description);
    lines.push(d);
    lines.push(line("After=network-online.target"));
    lines.push(line("Requires=network-online.target"));
    lines.push(String::new());
    lines.push(line("[Service]"));
    let mut e = String::from_str("ExecStart=");
    e.append(exec_start);
    e.append(" --daemon");
    lines.push(e);
    lines.push(line("DynamicUser=true"));
    lines.push(line("NoNewPrivileges=true"));
    lines.push(line("ProtectSystem=strict"));
    lines.push(line("ProtectHome=true"));
    lines.push(line("PrivateDevices=true"));
    lines.push(line("PrivateTmp=true"));
    lines.push(line("RestrictSUIDSGID=true"));
    lines.push(line("RestrictNamespaces=true"));
    lines.push(line("RuntimeDirectory=icinga_passive_checks"));
    lines.push(String::new());
    lines.push(line("[Install]"));
    lines.push(line("WantedBy=multi-user.target"));
    assert(lines.deep_view() =~= unit_lines(description@, exec_start@));
    join_strings(&lines, '\n')
}

} // verus!
