use vstd::prelude::*;
use crate::scan::{has_at, has_at_exec};
use crate::text::{chars_of, lemma_split_nonempty, split_chars, split_on, string_of_chars};

verus! {

/// Where the newest release is described.
pub const LATEST_RELEASE_URL: &'static str =
    "https://api.github.com/repos/nsg/icinga_passive_checks/releases/latest";

/// Where the release of a given tag is described, up to the tag.
pub const RELEASE_TAG_URL: &'static str =
    "https://api.github.com/repos/nsg/icinga_passive_checks/releases/tags/";

/// The user agent sent with every release request.
pub const USER_AGENT: &'static str = "icinga-passive-checks-update-checker";

/// `t` without the `c` it starts with, however many.
pub open spec fn strip_leading(t: Seq<char>, c: char) -> Seq<char>
    decreases t.len(),
{
    if t.len() > 0 && t[0] == c {
        strip_leading(t.drop_first(), c)
    } else {
        t
    }
}

/// The version that a release tag names: the tag without its leading `v`s.
pub fn tag_version(tag: &str) -> (r: String)
    ensures
        r@ == strip_leading(tag@, 'v'),
{
    let t = chars_of(tag);
    let mut i: usize = 0;
    assert(t@.skip(0) =~= t@);
    while i < t.len() && t[i] == 'v'
        invariant
            i <= t@.len(),
            strip_leading(t@, 'v') == strip_leading(t@.skip(i as int), 'v'),
        decreases t@.len() - i,
    {
        assert(t@.skip(i as int).drop_first() =~= t@.skip(i + 1));
        i = i + 1;
    }
    let mut rest: Vec<char> = Vec::new();
    let mut j = i;
    while j < t.len()
        invariant
            i <= j <= t@.len(),
            rest@ == t@.subrange(i as int, j as int),
        decreases t@.len() - j,
    {
        rest.push(t[j]);
        j = j + 1;
        assert(rest@ =~= t@.subrange(i as int, j as int));
    }
    assert(t@.skip(i as int) =~= rest@);
    string_of_chars(&rest)
}

/// Whether the release tagged `tag` differs from the running version `current`.
pub fn update_available(current: &str, tag: &str) -> (r: bool)
    ensures
        r == (strip_leading(tag@, 'v') != current@),
{
    let latest = tag_version(tag);
    let cur = String::from_str(current);
    latest != cur
}

/// `Update available: v<current> -> v<latest>`, or `Up to date`.
pub fn update_message(current: &str, tag: &str) -> (r: String)
    ensures
        strip_leading(tag@, 'v') != current@ ==> r@ == "Update available: v"@ + current@ + " -> v"@
            + strip_leading(tag@, 'v'),
        strip_leading(tag@, 'v') == current@ ==> r@ == "Up to date"@,
{
    let latest = tag_version(tag);
    let cur = String::from_str(current);
    if latest != cur {
        let mut m = String::from_str("Update available: v");
        m.append(current);
        m.append(" -> v");
        m.append(latest.as_str());
        m
    } else {
        String::from_str("Up to date")
    }
}

/// The name of the release asset built for an Ubuntu release.
pub fn asset_name(ubuntu_version: &str) -> (r: String)
    ensures
        r@ == "icinga_passive_checks.x86_64-ubuntu"@ + ubuntu_version@,
{
    let mut r = String::from_str("icinga_passive_checks.x86_64-ubuntu");
    r.append(ubuntu_version);
    r
}

/// The address that describes the release tagged `tag`.
pub fn release_url(tag: &str) -> (r: String)
    ensures
        r@ == RELEASE_TAG_URL@ + tag@,
{
    let mut r = String::from_str(RELEASE_TAG_URL);
    r.append(tag);
    r
}

/// The position of the first asset called `wanted`.
pub fn find_asset(names: &Vec<String>, wanted: &str) -> (r: Option<usize>)
    ensures
        r matches Some(i) ==> i < names@.len() && names@[i as int]@ == wanted@ && forall|k: int|
            0 <= k < i ==> (#[trigger] names@[k])@ != wanted@,
        r is None ==> forall|k: int| 0 <= k < names@.len() ==> (#[trigger] names@[k])@ != wanted@,
{
    let w = String::from_str(wanted);
    let mut i: usize = 0;
    while i < names.len()
        invariant
            i <= names@.len(),
            w@ == wanted@,
            forall|k: int| 0 <= k < i ==> (#[trigger] names@[k])@ != wanted@,
        decreases names@.len() - i,
    {
        if names[i] == w {
            return Some(i);
        }
        i = i + 1;
    }
    None
}

// ----- /etc/lsb-release -----

/// The pieces of `c` between newlines.
pub open spec fn raw_lines(c: Seq<char>) -> Seq<Seq<char>> {
    split_on(c, '\n')
}

/// The number of lines of `c`: a newline at the end starts no new line.
pub open spec fn line_count(c: Seq<char>) -> int {
    let r = raw_lines(c);
    if r.last().len() == 0 { r.len() - 1 } else { r.len() as int }
}

/// Line `k` of `c`, without the `\r` of a `\r\n` ending.
pub open spec fn line_at(c: Seq<char>, k: int) -> Seq<char> {
    let r = raw_lines(c);
    if k < r.len() - 1 && r[k].len() > 0 && r[k].last() == '\r' {
        r[k].drop_last()
    } else {
        r[k]
    }
}

pub open spec fn release_prefix() -> Seq<char> {
    "DISTRIB_RELEASE="@
}

/// Does one of the first `k` lines say that the system is Ubuntu.
pub open spec fn ubuntu_seen(c: Seq<char>, k: int) -> bool
    decreases k,
{
    if k <= 0 {
        false
    } else {
        line_at(c, k - 1) == "DISTRIB_ID=Ubuntu"@ || ubuntu_seen(c, k - 1)
    }
}

/// The release that the last `DISTRIB_RELEASE=` line among the first `k`
/// gives: what follows the `=`, up to any further `=`.
pub open spec fn release_seen(c: Seq<char>, k: int) -> Option<Seq<char>>
    decreases k,
{
    if k <= 0 {
        None
    } else if has_at(line_at(c, k - 1), 0, release_prefix()) {
        let l = line_at(c, k - 1);
        Some(split_on(l.subrange(release_prefix().len() as int, l.len() as int), '=')[0])
    } else {
        release_seen(c, k - 1)
    }
}

/// The Ubuntu release that the text of `/etc/lsb-release` names, if it is Ubuntu.
pub open spec fn ubuntu_release_of(c: Seq<char>) -> Option<Seq<char>> {
    if ubuntu_seen(c, line_count(c)) {
        release_seen(c, line_count(c))
    } else {
        None
    }
}

/// Reads the Ubuntu release out of the text of `/etc/lsb-release`: none where
/// no line is `DISTRIB_ID=Ubuntu` or none gives `DISTRIB_RELEASE=`.
pub fn ubuntu_release(content: &str) -> (r: Option<String>)
    ensures
        match ubuntu_release_of(content@) {
            Some(v) => r matches Some(s) && s@ == v,
            None => r is None,
        },
{
    let c = chars_of(content);
    let raw = split_chars(&c, '\n');
    proof {
        lemma_split_nonempty(c@, '\n');
    }
    let n = raw.len();
    assert(raw.deep_view()[n - 1] == raw@[n - 1]@);
    let count = if raw[n - 1].as_str().is_empty() { n - 1 } else { n };
    let id_line = chars_of("DISTRIB_ID=Ubuntu");
    let prefix = chars_of("DISTRIB_RELEASE=");
    let mut ubuntu = false;
    let mut version: Option<String> = None;
    let mut k: usize = 0;
    while k < count
        invariant
            c@ == content@,
            raw.deep_view() == raw_lines(c@),
            n == raw@.len(),
            count == line_count(c@),
            count <= n,
            id_line@ == "DISTRIB_ID=Ubuntu"@,
            prefix@ == release_prefix(),
            k <= count,
            ubuntu == ubuntu_seen(c@, k as int),
            match release_seen(c@, k as int) {
                Some(v) => version matches Some(s) && s@ == v,
                None => version is None,
            },
        decreases count - k,
    {
        assert(raw.deep_view()[k as int] == raw@[k as int]@);
        let mut line = chars_of(raw[k].as_str());
        if k + 1 < n && line.len() > 0 && line[line.len() - 1] == '\r' {
            line.pop();
            assert(line@ =~= raw_lines(c@)[k as int].drop_last());
        }
        assert(line@ == line_at(c@, k as int));
        let is_id = line.len() == id_line.len() && has_at_exec(&line, 0, &id_line);
        assert(is_id ==> line@ =~= id_line@);
        proof {
            if line@ == id_line@ {
                assert(line@.subrange(0, id_line@.len() as int) =~= line@);
            }
        }
        if is_id {
            ubuntu = true;
        }
        if has_at_exec(&line, 0, &prefix) {
            let mut rest: Vec<char> = Vec::new();
            let mut j = prefix.len();
            while j < line.len()
                invariant
                    prefix@.len() <= j <= line@.len(),
                    rest@ == line@.subrange(prefix@.len() as int, j as int),
                decreases line@.len() - j,
            {
                rest.push(line[j]);
                j = j + 1;
                assert(rest@ =~= line@.subrange(prefix@.len() as int, j as int));
            }
            let parts = split_chars(&rest, '=');
            proof {
                lemma_split_nonempty(rest@, '=');
            }
            assert(parts.deep_view()[0] == parts@[0]@);
            version = Some(parts[0].clone());
        }
        k = k + 1;
    }
    if ubuntu {
        version
    } else {
        None
    }
}

} // verus!
