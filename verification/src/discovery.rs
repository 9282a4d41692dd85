//! The discovery protocol: probe recognition, response text, and the
//! parsing and filtering a prober applies to what comes back.
//!
//! A probe is the literal payload `DISCOVER`. A response is newline-
//! separated text whose recognized lines are `NAME:<hostname>` and
//! `OS:<os-label>`; every other line is ignored, and a missing line leaves
//! its field at "Unknown". Sending and receiving datagrams is the caller's
//! job; the functions here turn payloads into values.

use vstd::prelude::*;

use crate::device::Device;
use crate::device::DeviceView;

verus! {

/// The probe payload, as bytes: the ASCII text `DISCOVER`.
pub open spec fn probe_tag() -> Seq<u8> {
    seq![68u8, 73u8, 83u8, 67u8, 79u8, 86u8, 69u8, 82u8]
}

/// Builds the probe payload a prober broadcasts.
pub fn probe_message() -> (r: Vec<u8>)
    ensures
        r@ == probe_tag(),
{
    let mut r: Vec<u8> = Vec::new();
    r.push(68);
    r.push(73);
    r.push(83);
    r.push(67);
    r.push(79);
    r.push(86);
    r.push(69);
    r.push(82);
    proof {
        assert(r@ =~= probe_tag());
    }
    r
}

/// Does a received datagram ask for an identity response? Only the exact
/// probe payload does.
pub fn is_probe(buf: &[u8]) -> (r: bool)
    ensures
        r == (buf@ == probe_tag()),
{
    let expected = probe_message();
    if buf.len() != 8 {
        proof {
            assert(buf@ != probe_tag());
        }
        return false;
    }
    let mut i: usize = 0;
    while i < 8
        invariant
            i <= 8,
            buf@.len() == 8,
            expected@ == probe_tag(),
            forall|j: int| 0 <= j < i ==> buf@[j] == probe_tag()[j],
        decreases 8 - i,
    {
        if buf[i] != expected[i] {
            proof {
                assert(buf@ != probe_tag());
            }
            return false;
        }
        i = i + 1;
    }
    proof {
        assert(buf@ =~= probe_tag());
    }
    true
}

/// The characters a line's field value is trimmed of at either end.
pub open spec fn is_space(c: char) -> bool {
    c == ' ' || c == '\t' || c == '\r' || c == '\n'
}

/// `s` without its leading whitespace.
pub open spec fn trim_start_rec(s: Seq<char>) -> Seq<char>
    decreases s.len(),
{
    if s.len() > 0 && is_space(s[0]) {
        trim_start_rec(s.drop_first())
    } else {
        s
    }
}

/// `s` without its trailing whitespace.
pub open spec fn trim_end_rec(s: Seq<char>) -> Seq<char>
    decreases s.len(),
{
    if s.len() > 0 && is_space(s.last()) {
        trim_end_rec(s.drop_last())
    } else {
        s
    }
}

/// `s` without leading and trailing whitespace.
pub open spec fn spec_trim(s: Seq<char>) -> Seq<char> {
    trim_end_rec(trim_start_rec(s))
}

/// The lines of `cur + s`, where `cur` is the part of the current line read
/// so far: lines are separated by `'\n'`, and the end of the text ends the
/// last line.
pub open spec fn lines_from(s: Seq<char>, cur: Seq<char>) -> Seq<Seq<char>>
    decreases s.len(),
{
    if s.len() == 0 {
        seq![cur]
    } else if s[0] == '\n' {
        seq![cur] + lines_from(s.drop_first(), Seq::empty())
    } else {
        lines_from(s.drop_first(), cur.push(s[0]))
    }
}

/// The lines of a response text.
pub open spec fn spec_lines(s: Seq<char>) -> Seq<Seq<char>> {
    lines_from(s, Seq::empty())
}

/// The prefix that marks a hostname line.
pub open spec fn name_prefix() -> Seq<char> {
    "NAME:"@
}

/// The prefix that marks an operating-system line.
pub open spec fn os_prefix() -> Seq<char> {
    "OS:"@
}

/// The value both fields hold when no line of the response set them.
pub open spec fn unknown_label() -> Seq<char> {
    "Unknown"@
}

/// How one line changes the (hostname, OS) fields gathered so far: a
/// recognized prefix replaces its field with the trimmed rest of the line,
/// any other line changes nothing.
pub open spec fn line_step(l: Seq<char>, name: Seq<char>, os: Seq<char>) -> (Seq<char>, Seq<
    char,
>) {
    if name_prefix().is_prefix_of(l) {
        (spec_trim(l.skip(name_prefix().len() as int)), os)
    } else if os_prefix().is_prefix_of(l) {
        (name, spec_trim(l.skip(os_prefix().len() as int)))
    } else {
        (name, os)
    }
}

/// The (hostname, OS) fields after reading the lines `ls`, starting from
/// `name` and `os`. A later recognized line overrides an earlier one.
pub open spec fn fields_from(ls: Seq<Seq<char>>, name: Seq<char>, os: Seq<char>) -> (Seq<
    char,
>, Seq<char>)
    decreases ls.len(),
{
    if ls.len() == 0 {
        (name, os)
    } else {
        let st = line_step(ls[0], name, os);
        fields_from(ls.drop_first(), st.0, st.1)
    }
}

/// The (hostname, OS) pair a response text parses to.
pub open spec fn parsed_fields(s: Seq<char>) -> (Seq<char>, Seq<char>) {
    fields_from(spec_lines(s), unknown_label(), unknown_label())
}

/// The hostname a response text parses to.
pub open spec fn parsed_name(s: Seq<char>) -> Seq<char> {
    parsed_fields(s).0
}

/// The operating-system label a response text parses to.
pub open spec fn parsed_os(s: Seq<char>) -> Seq<char> {
    parsed_fields(s).1
}

/// Does the line `[start, end)` of `s` begin with the prefix `p`?
fn range_has_prefix(s: &str, start: usize, end: usize, p: &str) -> (r: bool)
    requires
        start <= end <= s@.len(),
    ensures
        r == p@.is_prefix_of(s@.subrange(start as int, end as int)),
{
    let pl = p.unicode_len();
    if end - start < pl {
        proof {
            assert(!p@.is_prefix_of(s@.subrange(start as int, end as int)));
        }
        return false;
    }
    let mut k: usize = 0;
    while k < pl
        invariant
            k <= pl,
            pl == p@.len(),
            start + pl <= end <= s@.len(),
            forall|j: int| 0 <= j < k ==> p@[j] == s@[start + j],
        decreases pl - k,
    {
        if s.get_char(start + k) != p.get_char(k) {
            proof {
                let sub = s@.subrange(start as int, end as int);
                assert(sub[k as int] == s@[start + k]);
                assert(!p@.is_prefix_of(sub));
            }
            return false;
        }
        k = k + 1;
    }
    proof {
        let sub = s@.subrange(start as int, end as int);
        assert(forall|j: int| 0 <= j < p@.len() ==> sub[j] == s@[start + j]);
        assert(p@ =~= sub.subrange(0, p@.len() as int));
    }
    true
}

/// Is `c` one of the characters trimming removes?
fn is_space_char(c: char) -> (r: bool)
    ensures
        r == is_space(c),
{
    c == ' ' || c == '\t' || c == '\r' || c == '\n'
}

/// The range `[start, end)` of `s`, trimmed of surrounding whitespace, as
/// an owned string.
fn trimmed_range(s: &str, start: usize, end: usize) -> (r: String)
    requires
        start <= end <= s@.len(),
    ensures
        r@ == spec_trim(s@.subrange(start as int, end as int)),
{
    let mut a = start;
    let mut b = end;
    while a < b && is_space_char(s.get_char(a))
        invariant
            start <= a <= b <= end <= s@.len(),
            b == end,
            trim_start_rec(s@.subrange(start as int, end as int)) == trim_start_rec(
                s@.subrange(a as int, end as int),
            ),
        decreases b - a,
    {
        proof {
            let cur = s@.subrange(a as int, end as int);
            assert(cur[0] == s@[a as int]);
            assert(cur.drop_first() =~= s@.subrange(a + 1, end as int));
            assert(trim_start_rec(cur) == trim_start_rec(cur.drop_first()));
        }
        a = a + 1;
    }
    proof {
        let cur = s@.subrange(a as int, end as int);
        if a < end {
            assert(cur[0] == s@[a as int]);
        }
        assert(trim_start_rec(cur) == cur);
        assert(trim_start_rec(s@.subrange(start as int, end as int)) == s@.subrange(
            a as int,
            end as int,
        ));
    }
    while a < b && is_space_char(s.get_char(b - 1))
        invariant
            a <= b <= end <= s@.len(),
            trim_end_rec(s@.subrange(a as int, end as int)) == trim_end_rec(
                s@.subrange(a as int, b as int),
            ),
        decreases b,
    {
        proof {
            let cur = s@.subrange(a as int, b as int);
            assert(cur.last() == s@[b - 1]);
            assert(cur.drop_last() =~= s@.subrange(a as int, b - 1));
            assert(trim_end_rec(cur) == trim_end_rec(cur.drop_last()));
        }
        b = b - 1;
    }
    proof {
        let cur = s@.subrange(a as int, b as int);
        if a < b {
            assert(cur.last() == s@[b - 1]);
        }
        assert(trim_end_rec(cur) == cur);
    }
    let piece = s.substring_char(a, b);
    piece.to_owned()
}

/// Applies one complete line, the range `[start, end)` of `response`, to
/// the fields gathered so far.
fn apply_line(response: &str, start: usize, end: usize, name: String, os: String) -> (r: (
    String,
    String,
))
    requires
        start <= end <= response@.len(),
    ensures
        ({
            let st = line_step(response@.subrange(start as int, end as int), name@, os@);
            r.0@ == st.0 && r.1@ == st.1
        }),
{
    proof {
        reveal_strlit("NAME:");
        reveal_strlit("OS:");
    }
    if range_has_prefix(response, start, end, "NAME:") {
        proof {
            let l = response@.subrange(start as int, end as int);
            assert(l.skip(5) =~= response@.subrange(start + 5, end as int));
        }
        let v = trimmed_range(response, start + 5, end);
        (v, os)
    } else if range_has_prefix(response, start, end, "OS:") {
        proof {
            let l = response@.subrange(start as int, end as int);
            assert(l.skip(3) =~= response@.subrange(start + 3, end as int));
        }
        let v = trimmed_range(response, start + 3, end);
        (name, v)
    } else {
        (name, os)
    }
}

/// Parses a response into its hostname and operating-system label. A field
/// no recognized line sets is "Unknown"; when a prefix occurs on several
/// lines the last one counts; a line's value is trimmed of surrounding
/// whitespace.
pub fn parse_name_and_os(response: &str) -> (r: (String, String))
    ensures
        r.0@ == parsed_name(response@),
        r.1@ == parsed_os(response@),
{
    let n = response.unicode_len();
    let mut name = String::from_str("Unknown");
    let mut os = String::from_str("Unknown");
    proof {
        assert(response@.skip(0) =~= response@);
        assert(response@.subrange(0, 0) =~= Seq::<char>::empty());
    }
    let mut line_start: usize = 0;
    let mut i: usize = 0;
    while i < n
        invariant
            line_start <= i <= n == response@.len(),
            fields_from(
                lines_from(
                    response@.skip(i as int),
                    response@.subrange(line_start as int, i as int),
                ),
                name@,
                os@,
            ) == parsed_fields(response@),
        decreases n - i,
    {
        let c = response.get_char(i);
        if c == '\n' {
            let ghost oname = name@;
            let ghost oos = os@;
            proof {
                let rest = response@.skip(i as int);
                assert(rest[0] == response@[i as int]);
                assert(rest.drop_first() =~= response@.skip(i + 1));
                let cur = response@.subrange(line_start as int, i as int);
                let tail = lines_from(response@.skip(i + 1), Seq::empty());
                assert(lines_from(rest, cur) == seq![cur] + tail);
                assert((seq![cur] + tail)[0] == cur);
                assert((seq![cur] + tail).drop_first() =~= tail);
                let stp = line_step(cur, oname, oos);
                assert(fields_from(seq![cur] + tail, oname, oos) == fields_from(
                    tail,
                    stp.0,
                    stp.1,
                ));
                assert(response@.subrange(i + 1, i + 1) =~= Seq::<char>::empty());
            }
            let st = apply_line(response, line_start, i, name, os);
            name = st.0;
            os = st.1;
            line_start = i + 1;
        } else {
            proof {
                let rest = response@.skip(i as int);
                assert(rest[0] == response@[i as int]);
                assert(rest.drop_first() =~= response@.skip(i + 1));
                assert(response@.subrange(line_start as int, i as int).push(response@[i as int])
                    =~= response@.subrange(line_start as int, i + 1));
            }
        }
        i = i + 1;
    }
    let ghost oname = name@;
    let ghost oos = os@;
    proof {
        assert(response@.skip(n as int) =~= Seq::<char>::empty());
        let cur = response@.subrange(line_start as int, n as int);
        assert(lines_from(Seq::empty(), cur) == seq![cur]);
        assert(seq![cur][0] == cur);
        assert(seq![cur].drop_first() =~= Seq::<Seq<char>>::empty());
        let stp = line_step(cur, oname, oos);
        assert(fields_from(seq![cur], oname, oos) == fields_from(
            Seq::<Seq<char>>::empty(),
            stp.0,
            stp.1,
        ));
        assert(fields_from(Seq::<Seq<char>>::empty(), stp.0, stp.1) == (stp.0, stp.1));
    }
    let st = apply_line(response, line_start, n, name, os);
    (st.0, st.1)
}

/// Builds the response a responder sends back for a probe: the hostname
/// line, a newline, the operating-system line.
pub fn make_response(hostname: &str, os: &str) -> (r: String)
    ensures
        r@ == name_prefix() + hostname@ + seq!['\n'] + os_prefix() + os@,
{
    proof {
        reveal_strlit("\n");
    }
    let mut r = String::from_str("NAME:");
    r.append(hostname);
    r.append("\n");
    r.append("OS:");
    r.append(os);
    proof {
        assert(r@ =~= name_prefix() + hostname@ + seq!['\n'] + os_prefix() + os@);
    }
    r
}

/// A run of lines, none of which carries the OS prefix, leaves the OS
/// field as it was.
proof fn lemma_fields_os_unchanged(ls: Seq<Seq<char>>, name: Seq<char>, os: Seq<char>)
    requires
        forall|i: int| 0 <= i < ls.len() ==> !os_prefix().is_prefix_of(#[trigger] ls[i]),
    ensures
        fields_from(ls, name, os).1 == os,
    decreases ls.len(),
{
    if ls.len() > 0 {
        assert(!os_prefix().is_prefix_of(ls[0]));
        let st = line_step(ls[0], name, os);
        assert forall|i: int| 0 <= i < ls.drop_first().len() implies !os_prefix().is_prefix_of(
            #[trigger] ls.drop_first()[i],
        ) by {
            assert(ls.drop_first()[i] == ls[i + 1]);
        }
        lemma_fields_os_unchanged(ls.drop_first(), st.0, st.1);
    }
}

/// A run of lines, none of which carries either recognized prefix, leaves
/// both fields as they were.
proof fn lemma_fields_unchanged(ls: Seq<Seq<char>>, name: Seq<char>, os: Seq<char>)
    requires
        forall|i: int|
            0 <= i < ls.len() ==> !name_prefix().is_prefix_of(#[trigger] ls[i])
                && !os_prefix().is_prefix_of(ls[i]),
    ensures
        fields_from(ls, name, os) == (name, os),
    decreases ls.len(),
{
    if ls.len() > 0 {
        assert(!name_prefix().is_prefix_of(ls[0]) && !os_prefix().is_prefix_of(ls[0]));
        assert forall|i: int| 0 <= i < ls.drop_first().len() implies !name_prefix().is_prefix_of(
            #[trigger] ls.drop_first()[i],
        ) && !os_prefix().is_prefix_of(ls.drop_first()[i]) by {
            assert(ls.drop_first()[i] == ls[i + 1]);
        }
        lemma_fields_unchanged(ls.drop_first(), name, os);
    }
}

/// A response without an `OS:` line parses with the OS label "Unknown",
/// whatever its other lines hold.
pub proof fn lemma_missing_os(s: Seq<char>)
    requires
        forall|i: int|
            0 <= i < spec_lines(s).len() ==> !os_prefix().is_prefix_of(
                #[trigger] spec_lines(s)[i],
            ),
    ensures
        parsed_os(s) == unknown_label(),
{
    lemma_fields_os_unchanged(spec_lines(s), unknown_label(), unknown_label());
}

/// A response none of whose lines carries a recognized prefix parses with
/// both fields "Unknown".
pub proof fn lemma_unrecognized_response(s: Seq<char>)
    requires
        forall|i: int|
            0 <= i < spec_lines(s).len() ==> !name_prefix().is_prefix_of(
                #[trigger] spec_lines(s)[i],
            ) && !os_prefix().is_prefix_of(spec_lines(s)[i]),
    ensures
        parsed_name(s) == unknown_label(),
        parsed_os(s) == unknown_label(),
{
    lemma_fields_unchanged(spec_lines(s), unknown_label(), unknown_label());
}

/// Text without a newline forms a single line, appended to what the
/// current line already held.
proof fn lemma_lines_no_newline(s: Seq<char>, cur: Seq<char>)
    requires
        forall|i: int| 0 <= i < s.len() ==> s[i] != '\n',
    ensures
        lines_from(s, cur) == seq![cur + s],
    decreases s.len(),
{
    if s.len() == 0 {
        assert(cur + s =~= cur);
    } else {
        assert(s[0] != '\n');
        assert forall|i: int| 0 <= i < s.drop_first().len() implies #[trigger] s.drop_first()[i]
            != '\n' by {
            assert(s.drop_first()[i] == s[i + 1]);
        }
        lemma_lines_no_newline(s.drop_first(), cur.push(s[0]));
        assert(cur.push(s[0]) + s.drop_first() =~= cur + s);
    }
}

/// A newline after newline-free text `s1` closes the line `cur + s1`; the
/// rest of the text forms the remaining lines.
proof fn lemma_lines_split(s1: Seq<char>, s2: Seq<char>, cur: Seq<char>)
    requires
        forall|i: int| 0 <= i < s1.len() ==> s1[i] != '\n',
    ensures
        lines_from(s1 + seq!['\n'] + s2, cur) == seq![cur + s1] + lines_from(s2, Seq::empty()),
    decreases s1.len(),
{
    let s = s1 + seq!['\n'] + s2;
    if s1.len() == 0 {
        assert(s[0] == '\n');
        assert(s.drop_first() =~= s2);
        assert(cur + s1 =~= cur);
    } else {
        assert(s[0] == s1[0]);
        assert(s.drop_first() =~= s1.drop_first() + seq!['\n'] + s2);
        assert forall|i: int| 0 <= i < s1.drop_first().len() implies #[trigger] s1.drop_first()[i]
            != '\n' by {
            assert(s1.drop_first()[i] == s1[i + 1]);
        }
        lemma_lines_split(s1.drop_first(), s2, cur.push(s1[0]));
        assert(cur.push(s1[0]) + s1.drop_first() =~= cur + s1);
    }
}

/// Round trip of discovery: parsing the response a responder builds for
/// hostname and OS label gives both back unchanged, provided neither
/// contains a newline or surrounding whitespace.
pub proof fn lemma_response_roundtrip(hostname: Seq<char>, os: Seq<char>)
    requires
        forall|i: int| 0 <= i < hostname.len() ==> hostname[i] != '\n',
        forall|i: int| 0 <= i < os.len() ==> os[i] != '\n',
        spec_trim(hostname) == hostname,
        spec_trim(os) == os,
    ensures
        parsed_name(name_prefix() + hostname + seq!['\n'] + os_prefix() + os) == hostname,
        parsed_os(name_prefix() + hostname + seq!['\n'] + os_prefix() + os) == os,
{
    reveal_strlit("NAME:");
    reveal_strlit("OS:");
    let line1 = name_prefix() + hostname;
    let line2 = os_prefix() + os;
    let resp = name_prefix() + hostname + seq!['\n'] + os_prefix() + os;
    assert(resp =~= line1 + seq!['\n'] + line2);
    assert forall|i: int| 0 <= i < line1.len() implies #[trigger] line1[i] != '\n' by {
        if i < name_prefix().len() {
            assert(line1[i] == name_prefix()[i]);
        } else {
            assert(line1[i] == hostname[i - name_prefix().len()]);
        }
    }
    assert forall|i: int| 0 <= i < line2.len() implies #[trigger] line2[i] != '\n' by {
        if i < os_prefix().len() {
            assert(line2[i] == os_prefix()[i]);
        } else {
            assert(line2[i] == os[i - os_prefix().len()]);
        }
    }
    lemma_lines_split(line1, line2, Seq::empty());
    lemma_lines_no_newline(line2, Seq::empty());
    assert(Seq::empty() + line1 =~= line1);
    assert(Seq::empty() + line2 =~= line2);
    assert(spec_lines(resp) =~= seq![line1, line2]);
    assert(name_prefix() =~= line1.subrange(0, name_prefix().len() as int));
    assert(name_prefix().is_prefix_of(line1));
    assert(line1.skip(name_prefix().len() as int) =~= hostname);
    if name_prefix().is_prefix_of(line2) {
        assert(name_prefix()[0] == line2.subrange(0, name_prefix().len() as int)[0]);
        assert(false);
    }
    assert(os_prefix() =~= line2.subrange(0, os_prefix().len() as int));
    assert(os_prefix().is_prefix_of(line2));
    assert(line2.skip(os_prefix().len() as int) =~= os);
    let st1 = line_step(line1, unknown_label(), unknown_label());
    assert(st1 == (hostname, unknown_label()));
    assert(fields_from(seq![line1, line2], unknown_label(), unknown_label()) == fields_from(
        seq![line1, line2].drop_first(),
        hostname,
        unknown_label(),
    ));
    assert(seq![line1, line2].drop_first() =~= seq![line2]);
    let st2 = line_step(line2, hostname, unknown_label());
    assert(st2 == (hostname, os));
    assert(seq![line2].drop_first() =~= Seq::<Seq<char>>::empty());
    assert(fields_from(seq![line2], hostname, unknown_label()) == fields_from(
        Seq::<Seq<char>>::empty(),
        hostname,
        os,
    ));
    assert(fields_from(Seq::<Seq<char>>::empty(), hostname, os) == (hostname, os));
}

/// Turns one received datagram into a peer record, unless the reported
/// hostname is the local one: a host never lists itself.
pub fn process_response(ip: String, response: &str, local_hostname: &str) -> (r: Option<Device>)
    ensures
        parsed_name(response@) == local_hostname@ ==> r is None,
        parsed_name(response@) != local_hostname@ ==> (r matches Some(d) && d.ip@ == ip@
            && d.hostname@ == parsed_name(response@) && d.os@ == parsed_os(response@)),
{
    let parsed = parse_name_and_os(response);
    let local = String::from_str(local_hostname);
    if parsed.0 == local {
        None
    } else {
        Some(Device { ip, hostname: parsed.0, os: parsed.1 })
    }
}

/// The views of the datagrams a prober received: each source address with
/// its response text.
pub open spec fn view_pairs(rs: Seq<(String, String)>) -> Seq<(Seq<char>, Seq<char>)> {
    Seq::new(rs.len(), |i: int| (rs[i].0@, rs[i].1@))
}

/// The peers a prober reports for received datagrams `rs` (source address
/// paired with response text) and local hostname `local`: one entry per
/// datagram, in arrival order, except those reporting the local hostname.
pub open spec fn spec_peers(rs: Seq<(Seq<char>, Seq<char>)>, local: Seq<char>) -> Seq<DeviceView>
    decreases rs.len(),
{
    if rs.len() == 0 {
        Seq::empty()
    } else {
        let prev = spec_peers(rs.drop_last(), local);
        let last = rs.last();
        if parsed_name(last.1) == local {
            prev
        } else {
            prev.push(
                DeviceView {
                    ip: last.0,
                    hostname: parsed_name(last.1),
                    os: parsed_os(last.1),
                },
            )
        }
    }
}

/// The views of a list of peer records.
pub open spec fn views_of(ds: Seq<Device>) -> Seq<DeviceView> {
    Seq::new(ds.len(), |i: int| ds[i]@)
}

/// No peer a prober reports carries the local hostname, whatever the
/// responses held.
pub proof fn lemma_local_excluded(rs: Seq<(Seq<char>, Seq<char>)>, local: Seq<char>)
    ensures
        forall|i: int|
            0 <= i < spec_peers(rs, local).len() ==> #[trigger] spec_peers(rs, local)[i].hostname
                != local,
    decreases rs.len(),
{
    if rs.len() > 0 {
        lemma_local_excluded(rs.drop_last(), local);
        let prev = spec_peers(rs.drop_last(), local);
        let cur = spec_peers(rs, local);
        assert forall|i: int| 0 <= i < cur.len() implies cur[i].hostname != local by {
            if i < prev.len() {
                assert(cur[i] == prev[i]);
            }
        }
    }
}

/// Builds the peer list of one discovery call from the datagrams received
/// during its window, in arrival order, leaving out every response whose
/// hostname is the local one.
pub fn collect_peers(responses: &Vec<(String, String)>, local_hostname: &str) -> (r: Vec<Device>)
    ensures
        views_of(r@) == spec_peers(view_pairs(responses@), local_hostname@),
        forall|i: int| 0 <= i < r@.len() ==> #[trigger] r@[i].hostname@ != local_hostname@,
{
    let mut r: Vec<Device> = Vec::new();
    proof {
        assert(view_pairs(responses@).take(0) =~= Seq::<(Seq<char>, Seq<char>)>::empty());
        assert(views_of(r@) =~= spec_peers(view_pairs(responses@).take(0), local_hostname@));
    }
    let mut i: usize = 0;
    while i < responses.len()
        invariant
            i <= responses@.len(),
            views_of(r@) == spec_peers(view_pairs(responses@).take(i as int), local_hostname@),
            forall|j: int| 0 <= j < r@.len() ==> #[trigger] r@[j].hostname@ != local_hostname@,
        decreases responses@.len() - i,
    {
        let pair = &responses[i];
        let ip = pair.0.clone();
        let d = process_response(ip, pair.1.as_str(), local_hostname);
        proof {
            let taken = view_pairs(responses@).take(i + 1);
            assert(taken.drop_last() =~= view_pairs(responses@).take(i as int));
            assert(taken.last() == (responses@[i as int].0@, responses@[i as int].1@));
        }
        match d {
            Some(dev) => {
                r.push(dev);
                proof {
                    assert(views_of(r@) =~= spec_peers(
                        view_pairs(responses@).take(i + 1),
                        local_hostname@,
                    ));
                }
            },
            None => {
                proof {
                    assert(views_of(r@) =~= spec_peers(
                        view_pairs(responses@).take(i + 1),
                        local_hostname@,
                    ));
                }
            },
        }
        i = i + 1;
    }
    proof {
        assert(view_pairs(responses@).take(responses@.len() as int) =~= view_pairs(responses@));
    }
    r
}

/// Relies on `sysinfo::System::host_name`: the machine's hostname, if the
/// system reports one. The value depends on the machine, so nothing is
/// stated of it.
#[verifier::external_body]
fn host_name_raw() -> (r: Option<String>) {
    sysinfo::System::host_name()
}

/// Relies on `sysinfo::System::name`: the running operating system's name,
/// if the system reports one. The value depends on the machine, so nothing
/// is stated of it.
#[verifier::external_body]
fn os_name_raw() -> (r: Option<String>) {
    sysinfo::System::name()
}

/// The label used for a field the system could not report: the value
/// itself when there is one, "Unknown" otherwise.
pub fn label_or_unknown(x: Option<String>) -> (r: String)
    ensures
        x matches Some(s) ==> r@ == s@,
        x is None ==> r@ == unknown_label(),
{
    match x {
        Some(s) => s,
        None => String::from_str("Unknown"),
    }
}

/// The hostname this host answers probes with, "Unknown" when the system
/// does not report one.
pub fn local_hostname() -> String {
    label_or_unknown(host_name_raw())
}

/// The operating-system label this host answers probes with, "Unknown"
/// when the system does not report one.
pub fn local_os() -> String {
    label_or_unknown(os_name_raw())
}

} // verus!
