//! The persisted document: one JSON text holding the ordered array of
//! project records, each with its tasks and their tagged event records.
//!
//! The store is the only writer of its document, so the codec commits to one
//! canonical rendering — compact (no whitespace), fields in declaration
//! order, and the escaping `spec_escape_char` defines: the conventional
//! short escapes for quote, backslash, backspace, form feed, newline,
//! carriage return and tab, and \u00XX (lowercase hex) for the remaining
//! control characters, as common JSON writers emit them — and the parser
//! accepts exactly that rendering. Whatever the parser accepts re-serializes
//! to the identical document: `from_json` guarantees that its input is the
//! canonical rendering of the store it returns, and `to_json` produces that
//! rendering.

use vstd::prelude::*;

use crate::database::Database;
use crate::project::Event;
use crate::project::Project;
use crate::project::Task;
use crate::state::State;
use crate::strings::digit_char;
use crate::strings::push_char;

verus! {

/// The character for one hexadecimal digit, lowercase.
pub open spec fn hex_digit(d: int) -> char {
    if d < 10 {
        digit_char(d)
    } else {
        ((87 + d) as u8) as char
    }
}

/// How one character is rendered inside a JSON string: quote and backslash
/// take a backslash escape, the five control characters with conventional
/// short escapes take them, any other control character takes a \u00XX
/// escape, and every other character stands for itself.
pub open spec fn spec_escape_char(c: char) -> Seq<char> {
    if c == '"' {
        seq!['\\', '"']
    } else if c == '\\' {
        seq!['\\', '\\']
    } else if c == '\u{8}' {
        seq!['\\', 'b']
    } else if c == '\u{c}' {
        seq!['\\', 'f']
    } else if c == '\n' {
        seq!['\\', 'n']
    } else if c == '\r' {
        seq!['\\', 'r']
    } else if c == '\t' {
        seq!['\\', 't']
    } else if 0 <= (c as int) && (c as int) < 32 {
        seq!['\\', 'u', '0', '0', hex_digit(c as int / 16), hex_digit(c as int % 16)]
    } else {
        seq![c]
    }
}

/// A string's characters, escaped.
pub open spec fn spec_escape(s: Seq<char>) -> Seq<char>
    decreases s.len(),
{
    if s.len() == 0 {
        Seq::empty()
    } else {
        spec_escape_char(s[0]) + spec_escape(s.skip(1))
    }
}

/// A JSON string: the escaped characters between quotes.
pub open spec fn json_string(s: Seq<char>) -> Seq<char> {
    seq!['"'] + spec_escape(s) + seq!['"']
}

/// A state, rendered as a JSON string of its name.
pub open spec fn json_state(s: State) -> Seq<char> {
    match s {
        State::ONGOING => "\"ONGOING\""@,
        State::TODO => "\"TODO\""@,
        State::DONE => "\"DONE\""@,
    }
}

/// One event record: tagged by its kind, carrying its payload and timestamp.
pub open spec fn json_event(e: Event) -> Seq<char> {
    match e {
        Event::Description { data, date_time } => "{\"type\":\"description\",\"data\":"@
            + json_string(data@) + ",\"date_time\":"@ + json_string(date_time@) + "}"@,
        Event::State { data, date_time } => "{\"type\":\"state\",\"data\":"@ + json_state(data)
            + ",\"date_time\":"@ + json_string(date_time@) + "}"@,
        Event::Comment { data, date_time } => "{\"type\":\"comment\",\"data\":"@ + json_string(
            data@,
        ) + ",\"date_time\":"@ + json_string(date_time@) + "}"@,
    }
}

/// Event records joined by commas.
pub open spec fn json_event_seq(events: Seq<Event>) -> Seq<char>
    decreases events.len(),
{
    if events.len() == 0 {
        Seq::empty()
    } else if events.len() == 1 {
        json_event(events[0])
    } else {
        json_event(events[0]) + ","@ + json_event_seq(events.skip(1))
    }
}

/// One task record.
pub open spec fn json_task(t: Task) -> Seq<char> {
    "{\"id\":"@ + json_string(t.id@) + ",\"created_at\":"@ + json_string(t.created_at@)
        + ",\"events\":["@ + json_event_seq(t.events@) + "]}"@
}

/// Task records joined by commas.
pub open spec fn json_task_seq(tasks: Seq<Task>) -> Seq<char>
    decreases tasks.len(),
{
    if tasks.len() == 0 {
        Seq::empty()
    } else if tasks.len() == 1 {
        json_task(tasks[0])
    } else {
        json_task(tasks[0]) + ","@ + json_task_seq(tasks.skip(1))
    }
}

/// One project record.
pub open spec fn json_project(p: Project) -> Seq<char> {
    "{\"id\":"@ + json_string(p.id@) + ",\"description\":"@ + json_string(p.description@)
        + ",\"notes\":"@ + json_string(p.notes@) + ",\"tasks\":["@ + json_task_seq(p.tasks@)
        + "]}"@
}

/// Project records joined by commas.
pub open spec fn json_project_seq(projects: Seq<Project>) -> Seq<char>
    decreases projects.len(),
{
    if projects.len() == 0 {
        Seq::empty()
    } else if projects.len() == 1 {
        json_project(projects[0])
    } else {
        json_project(projects[0]) + ","@ + json_project_seq(projects.skip(1))
    }
}

/// The whole document: the array of project records.
pub open spec fn json_store(projects: Seq<Project>) -> Seq<char> {
    "["@ + json_project_seq(projects) + "]"@
}

/// `piece` occupies the input at `pos`.
spec fn matches_at(s: Seq<char>, pos: int, piece: Seq<char>) -> bool {
    &&& 0 <= pos
    &&& pos + piece.len() <= s.len()
    &&& s.subrange(pos, pos + piece.len()) == piece
}

/// Escaping one more character appends that character's escape.
proof fn lemma_escape_snoc(s: Seq<char>, c: char)
    ensures
        spec_escape(s.push(c)) == spec_escape(s) + spec_escape_char(c),
    decreases s.len(),
{
    if s.len() == 0 {
        let p = s.push(c);
        assert(p[0] == c);
        assert(p.skip(1) =~= Seq::<char>::empty());
        assert(spec_escape(p.skip(1)) =~= Seq::<char>::empty());
        assert(spec_escape(p) =~= spec_escape_char(c) + spec_escape(p.skip(1)));
        assert(spec_escape(p) =~= spec_escape(s) + spec_escape_char(c));
    } else {
        assert(s.push(c).skip(1) =~= s.skip(1).push(c));
        lemma_escape_snoc(s.skip(1), c);
        assert(spec_escape(s.push(c)) =~= spec_escape(s) + spec_escape_char(c));
    }
}

/// An escaped string splits at any character boundary.
proof fn lemma_escape_split(x: Seq<char>, k: int)
    requires
        0 <= k <= x.len(),
    ensures
        spec_escape(x) == spec_escape(x.take(k)) + spec_escape(x.skip(k)),
    decreases k,
{
    if k == 0 {
        assert(x.take(0) =~= Seq::<char>::empty());
        assert(x.skip(0) =~= x);
        assert(spec_escape(x.take(0)) =~= Seq::<char>::empty());
        assert(spec_escape(x) =~= spec_escape(x.take(0)) + spec_escape(x.skip(0)));
    } else {
        lemma_escape_split(x.skip(1), k - 1);
        assert(x.take(k)[0] == x[0]);
        assert(x.take(k).skip(1) =~= x.skip(1).take(k - 1));
        assert(x.skip(k) =~= x.skip(1).skip(k - 1));
        assert(spec_escape(x) =~= spec_escape(x.take(k)) + spec_escape(x.skip(k)));
    }
}

/// The escape of a string's tail starts with the escape of its head.
proof fn lemma_escape_head(x: Seq<char>, k: int)
    requires
        0 <= k < x.len(),
    ensures
        spec_escape(x.skip(k)) == spec_escape_char(x[k]) + spec_escape(x.skip(k + 1)),
{
    assert(x.skip(k)[0] == x[k]);
    assert(x.skip(k).skip(1) =~= x.skip(k + 1));
}

/// Joining one more event record appends a comma (unless the list was empty)
/// and the record.
proof fn lemma_json_event_seq_snoc(events: Seq<Event>, e: Event)
    ensures
        json_event_seq(events.push(e)) == if events.len() == 0 {
            json_event(e)
        } else {
            json_event_seq(events) + ","@ + json_event(e)
        },
    decreases events.len(),
{
    if events.len() == 0 {
        assert(events.push(e)[0] == e);
    } else {
        assert(events.push(e).skip(1) =~= events.skip(1).push(e));
        lemma_json_event_seq_snoc(events.skip(1), e);
        if events.len() == 1 {
            assert(json_event_seq(events.push(e)) =~= json_event_seq(events) + ","@ + json_event(
                e,
            ));
        } else {
            assert(json_event_seq(events.push(e)) =~= json_event_seq(events) + ","@ + json_event(
                e,
            ));
        }
    }
}

/// Joining one more task record appends a comma (unless the list was empty)
/// and the record.
proof fn lemma_json_task_seq_snoc(tasks: Seq<Task>, t: Task)
    ensures
        json_task_seq(tasks.push(t)) == if tasks.len() == 0 {
            json_task(t)
        } else {
            json_task_seq(tasks) + ","@ + json_task(t)
        },
    decreases tasks.len(),
{
    if tasks.len() == 0 {
        assert(tasks.push(t)[0] == t);
    } else {
        assert(tasks.push(t).skip(1) =~= tasks.skip(1).push(t));
        lemma_json_task_seq_snoc(tasks.skip(1), t);
        assert(json_task_seq(tasks.push(t)) =~= json_task_seq(tasks) + ","@ + json_task(t));
    }
}

/// Joining one more project record appends a comma (unless the list was
/// empty) and the record.
proof fn lemma_json_project_seq_snoc(projects: Seq<Project>, p: Project)
    ensures
        json_project_seq(projects.push(p)) == if projects.len() == 0 {
            json_project(p)
        } else {
            json_project_seq(projects) + ","@ + json_project(p)
        },
    decreases projects.len(),
{
    if projects.len() == 0 {
        assert(projects.push(p)[0] == p);
    } else {
        assert(projects.push(p).skip(1) =~= projects.skip(1).push(p));
        lemma_json_project_seq_snoc(projects.skip(1), p);
        assert(json_project_seq(projects.push(p)) =~= json_project_seq(projects) + ","@
            + json_project(p));
    }
}

/// The character for one hexadecimal digit, lowercase.
fn hex_char(d: u8) -> (r: char)
    requires
        d < 16,
    ensures
        r == hex_digit(d as int),
{
    if d < 10 {
        (48 + d) as char
    } else {
        (87 + d) as char
    }
}

/// Appends the canonical JSON rendering of one string.
fn write_string(out: &mut String, v: &str)
    ensures
        final(out)@ == old(out)@ + json_string(v@),
{
    push_char(out, '"');
    let n = v.unicode_len();
    for i in 0..n
        invariant
            n == v@.len(),
            out@ == old(out)@ + seq!['"'] + spec_escape(v@.take(i as int)),
    {
        let c = v.get_char(i);
        if c == '"' {
            push_char(out, '\\');
            push_char(out, '"');
        } else if c == '\\' {
            push_char(out, '\\');
            push_char(out, '\\');
        } else if c == '\u{8}' {
            push_char(out, '\\');
            push_char(out, 'b');
        } else if c == '\u{c}' {
            push_char(out, '\\');
            push_char(out, 'f');
        } else if c == '\n' {
            push_char(out, '\\');
            push_char(out, 'n');
        } else if c == '\r' {
            push_char(out, '\\');
            push_char(out, 'r');
        } else if c == '\t' {
            push_char(out, '\\');
            push_char(out, 't');
        } else if (c as u32) < 32 {
            let code = c as u32;
            push_char(out, '\\');
            push_char(out, 'u');
            push_char(out, '0');
            push_char(out, '0');
            push_char(out, hex_char((code / 16) as u8));
            push_char(out, hex_char((code % 16) as u8));
        } else {
            push_char(out, c);
        }
        proof {
            lemma_escape_snoc(v@.take(i as int), v@[i as int]);
            assert(v@.take(i + 1) =~= v@.take(i as int).push(v@[i as int]));
            assert(out@ =~= old(out)@ + seq!['"'] + spec_escape(v@.take(i + 1)));
        }
    }
    push_char(out, '"');
    proof {
        assert(v@.take(n as int) =~= v@);
        assert(out@ =~= old(out)@ + json_string(v@));
    }
}

/// Appends the JSON rendering of a state's name.
fn write_state(out: &mut String, s: &State)
    ensures
        final(out)@ == old(out)@ + json_state(*s),
{
    match s {
        State::ONGOING => out.append("\"ONGOING\""),
        State::TODO => out.append("\"TODO\""),
        State::DONE => out.append("\"DONE\""),
    }
}

/// Appends the JSON rendering of one event record.
fn write_event(out: &mut String, e: &Event)
    ensures
        final(out)@ == old(out)@ + json_event(*e),
{
    match e {
        Event::Description { data, date_time } => {
            out.append("{\"type\":\"description\",\"data\":");
            write_string(out, data.as_str());
            out.append(",\"date_time\":");
            write_string(out, date_time.as_str());
            out.append("}");
        },
        Event::State { data, date_time } => {
            out.append("{\"type\":\"state\",\"data\":");
            write_state(out, data);
            out.append(",\"date_time\":");
            write_string(out, date_time.as_str());
            out.append("}");
        },
        Event::Comment { data, date_time } => {
            out.append("{\"type\":\"comment\",\"data\":");
            write_string(out, data.as_str());
            out.append(",\"date_time\":");
            write_string(out, date_time.as_str());
            out.append("}");
        },
    }
    proof {
        assert(out@ =~= old(out)@ + json_event(*e));
    }
}

/// Appends the JSON rendering of one task record.
fn write_task(out: &mut String, t: &Task)
    ensures
        final(out)@ == old(out)@ + json_task(*t),
{
    out.append("{\"id\":");
    write_string(out, t.id.as_str());
    out.append(",\"created_at\":");
    write_string(out, t.created_at.as_str());
    out.append(",\"events\":[");
    let n = t.events.len();
    for i in 0..n
        invariant
            n == t.events@.len(),
            out@ == old(out)@ + "{\"id\":"@ + json_string(t.id@) + ",\"created_at\":"@
                + json_string(t.created_at@) + ",\"events\":["@ + json_event_seq(
                t.events@.take(i as int),
            ),
    {
        if i > 0 {
            out.append(",");
        }
        write_event(out, &t.events[i]);
        proof {
            lemma_json_event_seq_snoc(t.events@.take(i as int), t.events@[i as int]);
            assert(t.events@.take(i + 1) =~= t.events@.take(i as int).push(t.events@[i as int]));
            assert(out@ =~= old(out)@ + "{\"id\":"@ + json_string(t.id@) + ",\"created_at\":"@
                + json_string(t.created_at@) + ",\"events\":["@ + json_event_seq(
                t.events@.take(i + 1),
            ));
        }
    }
    out.append("]}");
    proof {
        assert(t.events@.take(n as int) =~= t.events@);
        assert(out@ =~= old(out)@ + json_task(*t));
    }
}

/// Appends the JSON rendering of one project record.
fn write_project(out: &mut String, p: &Project)
    ensures
        final(out)@ == old(out)@ + json_project(*p),
{
    out.append("{\"id\":");
    write_string(out, p.id.as_str());
    out.append(",\"description\":");
    write_string(out, p.description.as_str());
    out.append(",\"notes\":");
    write_string(out, p.notes.as_str());
    out.append(",\"tasks\":[");
    let ghost head = old(out)@ + "{\"id\":"@ + json_string(p.id@) + ",\"description\":"@
        + json_string(p.description@) + ",\"notes\":"@ + json_string(p.notes@) + ",\"tasks\":["@;
    proof {
        assert(out@ =~= head + json_task_seq(p.tasks@.take(0)));
    }
    let n = p.tasks.len();
    for i in 0..n
        invariant
            n == p.tasks@.len(),
            out@ == head + json_task_seq(p.tasks@.take(i as int)),
    {
        if i > 0 {
            out.append(",");
        }
        write_task(out, &p.tasks[i]);
        proof {
            lemma_json_task_seq_snoc(p.tasks@.take(i as int), p.tasks@[i as int]);
            assert(p.tasks@.take(i + 1) =~= p.tasks@.take(i as int).push(p.tasks@[i as int]));
            assert(out@ =~= head + json_task_seq(p.tasks@.take(i + 1)));
        }
    }
    out.append("]}");
    proof {
        assert(p.tasks@.take(n as int) =~= p.tasks@);
        assert(out@ =~= old(out)@ + json_project(*p));
    }
}

/// The hexadecimal value of one lowercase digit character.
fn hex_val(c: char) -> (r: Option<u8>)
    ensures
        r matches Some(d) ==> d < 16 && c == hex_digit(d as int),
        forall|d: int| 0 <= d < 16 && c == hex_digit(d) ==> r == Some(d as u8),
{
    let u = c as u32;
    if 48 <= u && u <= 57 {
        Some((u - 48) as u8)
    } else if 97 <= u && u <= 102 {
        Some((u - 87) as u8)
    } else {
        None
    }
}

/// Consumes `lit` at `pos`, yielding the position after it; yields nothing
/// when the input differs there.
fn expect_lit(s: &str, pos: usize, lit: &str) -> (r: Option<usize>)
    requires
        pos <= s@.len(),
    ensures
        r matches Some(end) ==> {
            &&& pos <= end <= s@.len()
            &&& end == pos + lit@.len()
            &&& s@.subrange(pos as int, end as int) == lit@
        },
        r is None ==> !matches_at(s@, pos as int, lit@),
{
    let slen = s.unicode_len();
    let llen = lit.unicode_len();
    if slen - pos < llen {
        return None;
    }
    for i in 0..llen
        invariant
            llen == lit@.len(),
            slen == s@.len(),
            pos + llen <= slen,
            forall|j: int| 0 <= j < i ==> s@[pos + j] == lit@[j],
    {
        if s.get_char(pos + i) != lit.get_char(i) {
            proof {
                if matches_at(s@, pos as int, lit@) {
                    assert(s@.subrange(pos as int, pos + lit@.len())[i as int] == lit@[i as int]);
                }
            }
            return None;
        }
    }
    proof {
        assert(s@.subrange(pos as int, (pos + llen) as int) =~= lit@);
    }
    Some(pos + llen)
}

/// When a string's rendering occupies the input at `pos` and the scan sits
/// at the boundary after `x.take(k)`, the input continues with the escape of
/// `x[k]`, or with the closing quote when `k == x.len()`.
proof fn lemma_scan_position(s: Seq<char>, pos: int, x: Seq<char>, k: int, i: int)
    requires
        matches_at(s, pos, json_string(x)),
        0 <= k <= x.len(),
        i == pos + 1 + spec_escape(x.take(k)).len(),
    ensures
        pos + json_string(x).len() <= s.len(),
        i + spec_escape(x.skip(k)).len() + 1 == pos + json_string(x).len(),
        k == x.len() ==> s[i] == '"',
        k < x.len() ==> forall|m: int|
            0 <= m < spec_escape_char(x[k]).len() ==> s[i + m] == spec_escape_char(x[k])[m],
        k < x.len() ==> i + spec_escape_char(x[k]).len() == pos + 1 + spec_escape(
            x.take(k + 1),
        ).len(),
{
    let enc = json_string(x);
    lemma_escape_split(x, k);
    assert forall|j: int| 0 <= j < enc.len() implies s[pos + j] == enc[j] by {
        assert(s.subrange(pos, pos + enc.len())[j] == s[pos + j]);
    }
    if k == x.len() {
        assert(x.skip(k) =~= Seq::<char>::empty());
        assert(spec_escape(x.skip(k)) =~= Seq::<char>::empty());
        assert(spec_escape(x) =~= spec_escape(x.take(k)));
        assert(enc[i - pos] == '"');
        assert(s[pos + (i - pos)] == enc[i - pos]);
    } else {
        lemma_escape_head(x, k);
        assert(x.take(k + 1) =~= x.take(k).push(x[k]));
        lemma_escape_snoc(x.take(k), x[k]);
        assert forall|m: int|
            0 <= m < spec_escape_char(x[k]).len() implies s[i + m] == spec_escape_char(x[k])[m] by {
            assert(spec_escape(x)[i - pos - 1 + m] == spec_escape_char(x[k])[m]);
            assert(enc[i - pos + m] == spec_escape(x)[i - pos - 1 + m]);
            assert(s[pos + (i - pos + m)] == enc[i - pos + m]);
        }
    }
}

/// Parses one canonical JSON string at `pos`: what it consumes is exactly
/// the canonical rendering of the value it yields, and whenever some
/// string's rendering occupies the input there, the parse succeeds and
/// returns exactly that string.
#[verifier::spinoff_prover]
fn parse_string(s: &str, pos: usize) -> (r: Option<(String, usize)>)
    requires
        pos <= s@.len(),
    ensures
        r matches Some((v, end)) ==> {
            &&& pos < end <= s@.len()
            &&& s@.subrange(pos as int, end as int) == json_string(v@)
        },
        forall|x: Seq<char>| #[trigger]
            matches_at(s@, pos as int, json_string(x)) ==> match r {
                Some((v, end)) => v@ == x && end == pos + json_string(x).len(),
                None => false,
            },
{
    let n = s.unicode_len();
    if pos >= n {
        proof {
            assert forall|x: Seq<char>| #[trigger]
                matches_at(s@, pos as int, json_string(x)) implies false by {
                assert(json_string(x).len() >= 2);
            }
        }
        return None;
    }
    if s.get_char(pos) != '"' {
        proof {
            assert forall|x: Seq<char>| #[trigger]
                matches_at(s@, pos as int, json_string(x)) implies false by {
                assert(s@.subrange(pos as int, pos + json_string(x).len())[0] == s@[pos as int]);
                assert(json_string(x)[0] == '"');
            }
        }
        return None;
    }
    let mut acc = String::new();
    let mut i: usize = pos + 1;
    proof {
        assert(spec_escape(Seq::<char>::empty()) =~= Seq::<char>::empty());
        assert forall|x: Seq<char>| #[trigger]
            matches_at(s@, pos as int, json_string(x)) implies acc@ == x.take(acc@.len() as int)
            && i == pos + 1 + spec_escape(x.take(acc@.len() as int)).len() by {
            assert(x.take(0) =~= Seq::<char>::empty());
        }
    }
    loop
        invariant
            n == s@.len(),
            pos + 1 <= i <= n,
            s@[pos as int] == '"',
            s@.subrange(pos + 1, i as int) == spec_escape(acc@),
            forall|x: Seq<char>| #[trigger]
                matches_at(s@, pos as int, json_string(x)) ==> {
                    &&& acc@.len() <= x.len()
                    &&& acc@ == x.take(acc@.len() as int)
                    &&& i == pos + 1 + spec_escape(x.take(acc@.len() as int)).len()
                },
        decreases n - i,
    {
        if i >= n {
            proof {
                assert forall|x: Seq<char>| #[trigger]
                    matches_at(s@, pos as int, json_string(x)) implies false by {
                    lemma_scan_position(s@, pos as int, x, acc@.len() as int, i as int);
                }
            }
            return None;
        }
        let c = s.get_char(i);
        if c == '"' {
            proof {
                assert(s@.subrange(pos as int, (i + 1) as int) =~= seq!['"'] + spec_escape(acc@)
                    + seq!['"']);
                assert forall|x: Seq<char>| #[trigger]
                    matches_at(s@, pos as int, json_string(x)) implies acc@ == x && i + 1 == pos
                    + json_string(x).len() by {
                    let k = acc@.len() as int;
                    lemma_scan_position(s@, pos as int, x, k, i as int);
                    if k < x.len() {
                        assert(s@[i as int] == spec_escape_char(x[k])[0]);
                        assert(false);
                    }
                    assert(x.take(k) =~= x);
                    assert(x.skip(k) =~= Seq::<char>::empty());
                    assert(spec_escape(x.skip(k)) =~= Seq::<char>::empty());
                }
            }
            return Some((acc, i + 1));
        } else if c == '\\' {
            if n - i < 2 {
                proof {
                    assert forall|x: Seq<char>| #[trigger]
                        matches_at(s@, pos as int, json_string(x)) implies false by {
                        let k = acc@.len() as int;
                        lemma_scan_position(s@, pos as int, x, k, i as int);
                        if k < x.len() {
                            assert(s@[i as int] == spec_escape_char(x[k])[0]);
                            assert(spec_escape_char(x[k]).len() >= 2);
                            lemma_escape_head(x, k);
                        }
                    }
                }
                return None;
            }
            let e = s.get_char(i + 1);
            if e == '"' {
                let ghost prev = acc@;
                push_char(&mut acc, '"');
                proof {
                    lemma_escape_snoc(prev, '"');
                    assert(s@.subrange(pos + 1, (i + 2) as int) =~= spec_escape(prev)
                        + spec_escape_char('"'));
                    assert forall|x: Seq<char>| #[trigger]
                        matches_at(s@, pos as int, json_string(x)) implies acc@.len() <= x.len()
                        && acc@ == x.take(acc@.len() as int) && i + 2 == pos + 1 + spec_escape(
                        x.take(acc@.len() as int),
                    ).len() by {
                        let k = prev.len() as int;
                        lemma_scan_position(s@, pos as int, x, k, i as int);
                        if k == x.len() {
                            assert(false);
                        }
                        assert(s@[i as int] == spec_escape_char(x[k])[0]);
                        assert(s@[i + 1] == spec_escape_char(x[k])[1]);
                        assert(x[k] == '"');
                        assert(x.take(k + 1) =~= x.take(k).push('"'));
                    }
                }
                i = i + 2;
            } else if e == '\\' {
                let ghost prev = acc@;
                push_char(&mut acc, '\\');
                proof {
                    lemma_escape_snoc(prev, '\\');
                    assert(s@.subrange(pos + 1, (i + 2) as int) =~= spec_escape(prev)
                        + spec_escape_char('\\'));
                    assert forall|x: Seq<char>| #[trigger]
                        matches_at(s@, pos as int, json_string(x)) implies acc@.len() <= x.len()
                        && acc@ == x.take(acc@.len() as int) && i + 2 == pos + 1 + spec_escape(
                        x.take(acc@.len() as int),
                    ).len() by {
                        let k = prev.len() as int;
                        lemma_scan_position(s@, pos as int, x, k, i as int);
                        if k == x.len() {
                            assert(false);
                        }
                        assert(s@[i as int] == spec_escape_char(x[k])[0]);
                        assert(s@[i + 1] == spec_escape_char(x[k])[1]);
                        assert(x[k] == '\\');
                        assert(x.take(k + 1) =~= x.take(k).push('\\'));
                    }
                }
                i = i + 2;
            } else if e == 'b' {
                let ghost prev = acc@;
                push_char(&mut acc, '\u{8}');
                proof {
                    lemma_escape_snoc(prev, '\u{8}');
                    assert(s@.subrange(pos + 1, (i + 2) as int) =~= spec_escape(prev)
                        + spec_escape_char('\u{8}'));
                    assert forall|x: Seq<char>| #[trigger]
                        matches_at(s@, pos as int, json_string(x)) implies acc@.len() <= x.len()
                        && acc@ == x.take(acc@.len() as int) && i + 2 == pos + 1 + spec_escape(
                        x.take(acc@.len() as int),
                    ).len() by {
                        let k = prev.len() as int;
                        lemma_scan_position(s@, pos as int, x, k, i as int);
                        if k == x.len() {
                            assert(false);
                        }
                        assert(s@[i as int] == spec_escape_char(x[k])[0]);
                        assert(s@[i + 1] == spec_escape_char(x[k])[1]);
                        assert(x[k] == '\u{8}');
                        assert(x.take(k + 1) =~= x.take(k).push('\u{8}'));
                    }
                }
                i = i + 2;
            } else if e == 'f' {
                let ghost prev = acc@;
                push_char(&mut acc, '\u{c}');
                proof {
                    lemma_escape_snoc(prev, '\u{c}');
                    assert(s@.subrange(pos + 1, (i + 2) as int) =~= spec_escape(prev)
                        + spec_escape_char('\u{c}'));
                    assert forall|x: Seq<char>| #[trigger]
                        matches_at(s@, pos as int, json_string(x)) implies acc@.len() <= x.len()
                        && acc@ == x.take(acc@.len() as int) && i + 2 == pos + 1 + spec_escape(
                        x.take(acc@.len() as int),
                    ).len() by {
                        let k = prev.len() as int;
                        lemma_scan_position(s@, pos as int, x, k, i as int);
                        if k == x.len() {
                            assert(false);
                        }
                        assert(s@[i as int] == spec_escape_char(x[k])[0]);
                        assert(s@[i + 1] == spec_escape_char(x[k])[1]);
                        assert(x[k] == '\u{c}');
                        assert(x.take(k + 1) =~= x.take(k).push('\u{c}'));
                    }
                }
                i = i + 2;
            } else if e == 'n' {
                let ghost prev = acc@;
                push_char(&mut acc, '\n');
                proof {
                    lemma_escape_snoc(prev, '\n');
                    assert(s@.subrange(pos + 1, (i + 2) as int) =~= spec_escape(prev)
                        + spec_escape_char('\n'));
                    assert forall|x: Seq<char>| #[trigger]
                        matches_at(s@, pos as int, json_string(x)) implies acc@.len() <= x.len()
                        && acc@ == x.take(acc@.len() as int) && i + 2 == pos + 1 + spec_escape(
                        x.take(acc@.len() as int),
                    ).len() by {
                        let k = prev.len() as int;
                        lemma_scan_position(s@, pos as int, x, k, i as int);
                        if k == x.len() {
                            assert(false);
                        }
                        assert(s@[i as int] == spec_escape_char(x[k])[0]);
                        assert(s@[i + 1] == spec_escape_char(x[k])[1]);
                        assert(x[k] == '\n');
                        assert(x.take(k + 1) =~= x.take(k).push('\n'));
                    }
                }
                i = i + 2;
            } else if e == 'r' {
                let ghost prev = acc@;
                push_char(&mut acc, '\r');
                proof {
                    lemma_escape_snoc(prev, '\r');
                    assert(s@.subrange(pos + 1, (i + 2) as int) =~= spec_escape(prev)
                        + spec_escape_char('\r'));
                    assert forall|x: Seq<char>| #[trigger]
                        matches_at(s@, pos as int, json_string(x)) implies acc@.len() <= x.len()
                        && acc@ == x.take(acc@.len() as int) && i + 2 == pos + 1 + spec_escape(
                        x.take(acc@.len() as int),
                    ).len() by {
                        let k = prev.len() as int;
                        lemma_scan_position(s@, pos as int, x, k, i as int);
                        if k == x.len() {
                            assert(false);
                        }
                        assert(s@[i as int] == spec_escape_char(x[k])[0]);
                        assert(s@[i + 1] == spec_escape_char(x[k])[1]);
                        assert(x[k] == '\r');
                        assert(x.take(k + 1) =~= x.take(k).push('\r'));
                    }
                }
                i = i + 2;
            } else if e == 't' {
                let ghost prev = acc@;
                push_char(&mut acc, '\t');
                proof {
                    lemma_escape_snoc(prev, '\t');
                    assert(s@.subrange(pos + 1, (i + 2) as int) =~= spec_escape(prev)
                        + spec_escape_char('\t'));
                    assert forall|x: Seq<char>| #[trigger]
                        matches_at(s@, pos as int, json_string(x)) implies acc@.len() <= x.len()
                        && acc@ == x.take(acc@.len() as int) && i + 2 == pos + 1 + spec_escape(
                        x.take(acc@.len() as int),
                    ).len() by {
                        let k = prev.len() as int;
                        lemma_scan_position(s@, pos as int, x, k, i as int);
                        if k == x.len() {
                            assert(false);
                        }
                        assert(s@[i as int] == spec_escape_char(x[k])[0]);
                        assert(s@[i + 1] == spec_escape_char(x[k])[1]);
                        assert(x[k] == '\t');
                        assert(x.take(k + 1) =~= x.take(k).push('\t'));
                    }
                }
                i = i + 2;
            } else if e == 'u' {
                proof {
                    assert forall|x: Seq<char>| #[trigger]
                        matches_at(s@, pos as int, json_string(x)) implies acc@.len() < x.len()
                        && 0 <= (x[acc@.len() as int] as int) < 32 && x[acc@.len() as int]
                        != '\u{8}' && x[acc@.len() as int] != '\u{c}' && x[acc@.len() as int]
                        != '\n' && x[acc@.len() as int] != '\r' && x[acc@.len() as int] != '\t'
                        && i + 6 <= n && s@[i + 2] == '0' && s@[i + 3] == '0' && s@[i + 4]
                        == hex_digit(x[acc@.len() as int] as int / 16) && s@[i + 5] == hex_digit(
                        x[acc@.len() as int] as int % 16,
                    ) by {
                        let k = acc@.len() as int;
                        lemma_scan_position(s@, pos as int, x, k, i as int);
                        if k == x.len() {
                            assert(false);
                        }
                        assert(s@[i as int] == spec_escape_char(x[k])[0]);
                        assert(s@[i + 1] == spec_escape_char(x[k])[1]);
                        assert(0 <= (x[k] as int) < 32);
                        assert(s@[i + 2] == spec_escape_char(x[k])[2]);
                        assert(s@[i + 3] == spec_escape_char(x[k])[3]);
                        assert(s@[i + 4] == spec_escape_char(x[k])[4]);
                        assert(s@[i + 5] == spec_escape_char(x[k])[5]);
                        lemma_escape_head(x, k);
                    }
                }
                if n - i < 6 {
                    return None;
                }
                if s.get_char(i + 2) != '0' || s.get_char(i + 3) != '0' {
                    return None;
                }
                let c4 = s.get_char(i + 4);
                let c5 = s.get_char(i + 5);
                let h1 = match hex_val(c4) {
                    Some(d) => d,
                    None => {
                        proof {
                            assert forall|x: Seq<char>| #[trigger]
                                matches_at(s@, pos as int, json_string(x)) implies false by {
                                let k = acc@.len() as int;
                                assert(0 <= (x[k] as int) < 32);
                                assert(c4 == hex_digit(x[k] as int / 16));
                                assert(0 <= (x[k] as int) / 16 < 16);
                            }
                        }
                        return None;
                    },
                };
                let h2 = match hex_val(c5) {
                    Some(d) => d,
                    None => {
                        proof {
                            assert forall|x: Seq<char>| #[trigger]
                                matches_at(s@, pos as int, json_string(x)) implies false by {
                                let k = acc@.len() as int;
                                assert(0 <= (x[k] as int) < 32);
                                assert(c5 == hex_digit(x[k] as int % 16));
                                assert(0 <= (x[k] as int) % 16 < 16);
                            }
                        }
                        return None;
                    },
                };
                let code = h1 * 16 + h2;
                if code >= 32 {
                    proof {
                        assert forall|x: Seq<char>| #[trigger]
                            matches_at(s@, pos as int, json_string(x)) implies false by {
                            let k = acc@.len() as int;
                            assert(0 <= (x[k] as int) < 32);
                            assert(c4 == hex_digit(x[k] as int / 16));
                            assert(c5 == hex_digit(x[k] as int % 16));
                            assert(0 <= (x[k] as int) / 16 < 16);
                            assert(0 <= (x[k] as int) % 16 < 16);
                            assert(h1 == (x[k] as int / 16) as u8);
                            assert(h2 == (x[k] as int % 16) as u8);
                            vstd::arithmetic::div_mod::lemma_fundamental_div_mod(x[k] as int, 16);
                            assert(code == x[k] as int);
                        }
                    }
                    return None;
                }
                if code == 8 || code == 9 || code == 10 || code == 12 || code == 13 {
                    proof {
                        assert forall|x: Seq<char>| #[trigger]
                            matches_at(s@, pos as int, json_string(x)) implies false by {
                            let k = acc@.len() as int;
                            assert(0 <= (x[k] as int) < 32);
                            assert(c4 == hex_digit(x[k] as int / 16));
                            assert(c5 == hex_digit(x[k] as int % 16));
                            assert(0 <= (x[k] as int) / 16 < 16);
                            assert(0 <= (x[k] as int) % 16 < 16);
                            assert(h1 == (x[k] as int / 16) as u8);
                            assert(h2 == (x[k] as int % 16) as u8);
                            vstd::arithmetic::div_mod::lemma_fundamental_div_mod(x[k] as int, 16);
                            assert(code == x[k] as int);
                            assert(((code as u8) as char) == x[k]);
                        }
                    }
                    return None;
                }
                let decoded = code as char;
                let ghost prev = acc@;
                push_char(&mut acc, decoded);
                proof {
                    lemma_escape_snoc(prev, decoded);
                    assert(code / 16 == h1 && code % 16 == h2) by (nonlinear_arith)
                        requires
                            code == h1 * 16 + h2,
                            h1 < 16,
                            h2 < 16,
                    ;
                    assert(spec_escape_char(decoded) =~= seq![
                        '\\',
                        'u',
                        '0',
                        '0',
                        hex_digit(h1 as int),
                        hex_digit(h2 as int),
                    ]);
                    assert(s@.subrange(pos + 1, (i + 6) as int) =~= spec_escape(prev)
                        + spec_escape_char(decoded));
                    assert forall|x: Seq<char>| #[trigger]
                        matches_at(s@, pos as int, json_string(x)) implies acc@.len() <= x.len()
                        && acc@ == x.take(acc@.len() as int) && i + 6 == pos + 1 + spec_escape(
                        x.take(acc@.len() as int),
                    ).len() by {
                        let k = prev.len() as int;
                        lemma_scan_position(s@, pos as int, x, k, i as int);
                        assert(0 <= (x[k] as int) < 32);
                        assert(c4 == hex_digit(x[k] as int / 16));
                        assert(c5 == hex_digit(x[k] as int % 16));
                        assert(0 <= (x[k] as int) / 16 < 16);
                        assert(0 <= (x[k] as int) % 16 < 16);
                        assert(h1 == (x[k] as int / 16) as u8);
                        assert(h2 == (x[k] as int % 16) as u8);
                        vstd::arithmetic::div_mod::lemma_fundamental_div_mod(x[k] as int, 16);
                        assert(code == x[k] as int);
                        assert(decoded == x[k]);
                        assert(x.take(k + 1) =~= x.take(k).push(decoded));
                    }
                }
                i = i + 6;
            } else {
                proof {
                    assert forall|x: Seq<char>| #[trigger]
                        matches_at(s@, pos as int, json_string(x)) implies false by {
                        let k = acc@.len() as int;
                        lemma_scan_position(s@, pos as int, x, k, i as int);
                        if k == x.len() {
                            assert(false);
                        }
                        assert(s@[i as int] == spec_escape_char(x[k])[0]);
                        assert(s@[i + 1] == spec_escape_char(x[k])[1]);
                    }
                }
                return None;
            }
        } else if (c as u32) < 32 {
            proof {
                assert forall|x: Seq<char>| #[trigger]
                    matches_at(s@, pos as int, json_string(x)) implies false by {
                    let k = acc@.len() as int;
                    lemma_scan_position(s@, pos as int, x, k, i as int);
                    if k < x.len() {
                        assert(s@[i as int] == spec_escape_char(x[k])[0]);
                    }
                }
            }
            return None;
        } else {
            let ghost prev = acc@;
            push_char(&mut acc, c);
            proof {
                lemma_escape_snoc(prev, c);
                assert(s@.subrange(pos + 1, (i + 1) as int) =~= spec_escape(prev)
                    + spec_escape_char(c));
                assert forall|x: Seq<char>| #[trigger]
                    matches_at(s@, pos as int, json_string(x)) implies acc@.len() <= x.len()
                    && acc@ == x.take(acc@.len() as int) && i + 1 == pos + 1 + spec_escape(
                    x.take(acc@.len() as int),
                ).len() by {
                    let k = prev.len() as int;
                    lemma_scan_position(s@, pos as int, x, k, i as int);
                    if k == x.len() {
                        assert(false);
                    }
                    assert(s@[i as int] == spec_escape_char(x[k])[0]);
                    assert(x[k] == c);
                    assert(x.take(k + 1) =~= x.take(k).push(c));
                }
            }
            i = i + 1;
        }
    }
}

/// A match of a concatenation splits into matches of its parts.
proof fn lemma_matches_split(s: Seq<char>, pos: int, a: Seq<char>, b: Seq<char>)
    requires
        matches_at(s, pos, a + b),
    ensures
        matches_at(s, pos, a),
        matches_at(s, pos + a.len(), b),
{
    let ab = a + b;
    assert forall|j: int| 0 <= j < ab.len() implies s[pos + j] == ab[j] by {
        assert(s.subrange(pos, pos + ab.len())[j] == s[pos + j]);
    }
    assert(s.subrange(pos, pos + a.len()) =~= a);
    assert forall|j: int|
        0 <= j < b.len() implies s.subrange(pos + a.len(), pos + a.len() + b.len())[j] == b[j] by {
        assert(s[pos + (a.len() + j)] == ab[a.len() + j]);
    }
    assert(s.subrange(pos + a.len(), pos + a.len() + b.len()) =~= b);
}

/// The three state names differ pairwise in their second character.
proof fn lemma_state_name_char(st: State)
    ensures
        json_state(st).len() >= 2,
        json_state(st)[1] == (match st {
            State::ONGOING => 'O',
            State::TODO => 'T',
            State::DONE => 'D',
        }),
{
    reveal_strlit("\"ONGOING\"");
    reveal_strlit("\"TODO\"");
    reveal_strlit("\"DONE\"");
}

/// Parses a state's name at `pos`: whenever some state's rendering occupies
/// the input there, the parse succeeds and consumes exactly it.
fn parse_state(s: &str, pos: usize) -> (r: Option<(State, usize)>)
    requires
        pos <= s@.len(),
    ensures
        r matches Some((st, end)) ==> {
            &&& pos <= end <= s@.len()
            &&& s@.subrange(pos as int, end as int) == json_state(st)
        },
        forall|st2: State| #[trigger]
            matches_at(s@, pos as int, json_state(st2)) ==> match r {
                Some((v, end)) => end == pos + json_state(st2).len(),
                None => false,
            },
{
    if let Some(end) = expect_lit(s, pos, "\"ONGOING\"") {
        proof {
            assert forall|st2: State| #[trigger]
                matches_at(s@, pos as int, json_state(st2)) implies end == pos + json_state(
                st2,
            ).len() by {
                lemma_state_name_char(st2);
                lemma_state_name_char(State::ONGOING);
                if st2 != State::ONGOING {
                    assert(s@.subrange(pos as int, pos + json_state(st2).len())[1] == s@[pos + 1]);
                    assert(s@.subrange(pos as int, end as int)[1] == s@[pos + 1]);
                    assert(false);
                }
            }
        }
        return Some((State::ONGOING, end));
    }
    if let Some(end) = expect_lit(s, pos, "\"TODO\"") {
        proof {
            assert forall|st2: State| #[trigger]
                matches_at(s@, pos as int, json_state(st2)) implies end == pos + json_state(
                st2,
            ).len() by {
                lemma_state_name_char(st2);
                lemma_state_name_char(State::TODO);
                if st2 != State::TODO {
                    assert(s@.subrange(pos as int, pos + json_state(st2).len())[1] == s@[pos + 1]);
                    assert(s@.subrange(pos as int, end as int)[1] == s@[pos + 1]);
                    assert(false);
                }
            }
        }
        return Some((State::TODO, end));
    }
    if let Some(end) = expect_lit(s, pos, "\"DONE\"") {
        proof {
            assert forall|st2: State| #[trigger]
                matches_at(s@, pos as int, json_state(st2)) implies end == pos + json_state(
                st2,
            ).len() by {
                lemma_state_name_char(st2);
                lemma_state_name_char(State::DONE);
                if st2 != State::DONE {
                    assert(s@.subrange(pos as int, pos + json_state(st2).len())[1] == s@[pos + 1]);
                    assert(s@.subrange(pos as int, end as int)[1] == s@[pos + 1]);
                    assert(false);
                }
            }
        }
        return Some((State::DONE, end));
    }
    proof {
        assert forall|st2: State| #[trigger]
            matches_at(s@, pos as int, json_state(st2)) implies false by {
            match st2 {
                State::ONGOING => {},
                State::TODO => {},
                State::DONE => {},
            }
        }
    }
    None
}

/// The head literal an event record opens with, naming its kind.
spec fn event_head(e: Event) -> Seq<char> {
    match e {
        Event::Description { .. } => "{\"type\":\"description\",\"data\":"@,
        Event::State { .. } => "{\"type\":\"state\",\"data\":"@,
        Event::Comment { .. } => "{\"type\":\"comment\",\"data\":"@,
    }
}

/// The three event heads share the opening brace but differ in the
/// character that names the kind.
proof fn lemma_event_heads()
    ensures
        "{\"type\":\"description\",\"data\":"@.len() >= 10,
        "{\"type\":\"state\",\"data\":"@.len() >= 10,
        "{\"type\":\"comment\",\"data\":"@.len() >= 10,
        "{\"type\":\"description\",\"data\":"@[0] == '{',
        "{\"type\":\"state\",\"data\":"@[0] == '{',
        "{\"type\":\"comment\",\"data\":"@[0] == '{',
        "{\"type\":\"description\",\"data\":"@[9] == 'd',
        "{\"type\":\"state\",\"data\":"@[9] == 's',
        "{\"type\":\"comment\",\"data\":"@[9] == 'c',
{
    reveal_strlit("{\"type\":\"description\",\"data\":");
    reveal_strlit("{\"type\":\"state\",\"data\":");
    reveal_strlit("{\"type\":\"comment\",\"data\":");
}

/// A match of an event record splits into matches of its head, payload,
/// timestamp, and closing parts, at their fixed offsets.
proof fn lemma_event_parts(s: Seq<char>, pos: int, e: Event)
    requires
        matches_at(s, pos, json_event(e)),
    ensures
        matches_at(s, pos, event_head(e)),
        e matches Event::Description { data, date_time } ==> ({
            let p1 = pos + event_head(e).len();
            let p2 = p1 + json_string(data@).len();
            let p3 = p2 + ",\"date_time\":"@.len();
            let p4 = p3 + json_string(date_time@).len();
            &&& matches_at(s, p1, json_string(data@))
            &&& matches_at(s, p2, ",\"date_time\":"@)
            &&& matches_at(s, p3, json_string(date_time@))
            &&& matches_at(s, p4, "}"@)
            &&& p4 + "}"@.len() == pos + json_event(e).len()
        }),
        e matches Event::State { data, date_time } ==> ({
            let p1 = pos + event_head(e).len();
            let p2 = p1 + json_state(data).len();
            let p3 = p2 + ",\"date_time\":"@.len();
            let p4 = p3 + json_string(date_time@).len();
            &&& matches_at(s, p1, json_state(data))
            &&& matches_at(s, p2, ",\"date_time\":"@)
            &&& matches_at(s, p3, json_string(date_time@))
            &&& matches_at(s, p4, "}"@)
            &&& p4 + "}"@.len() == pos + json_event(e).len()
        }),
        e matches Event::Comment { data, date_time } ==> ({
            let p1 = pos + event_head(e).len();
            let p2 = p1 + json_string(data@).len();
            let p3 = p2 + ",\"date_time\":"@.len();
            let p4 = p3 + json_string(date_time@).len();
            &&& matches_at(s, p1, json_string(data@))
            &&& matches_at(s, p2, ",\"date_time\":"@)
            &&& matches_at(s, p3, json_string(date_time@))
            &&& matches_at(s, p4, "}"@)
            &&& p4 + "}"@.len() == pos + json_event(e).len()
        }),
{
    let m = ",\"date_time\":"@;
    let t = "}"@;
    match e {
        Event::Description { data, date_time } => {
            let h = event_head(e);
            lemma_matches_split(
                s,
                pos,
                h + json_string(data@) + m + json_string(date_time@),
                t,
            );
            lemma_matches_split(s, pos, h + json_string(data@) + m, json_string(date_time@));
            lemma_matches_split(s, pos, h + json_string(data@), m);
            lemma_matches_split(s, pos, h, json_string(data@));
        },
        Event::State { data, date_time } => {
            let h = event_head(e);
            lemma_matches_split(s, pos, h + json_state(data) + m + json_string(date_time@), t);
            lemma_matches_split(s, pos, h + json_state(data) + m, json_string(date_time@));
            lemma_matches_split(s, pos, h + json_state(data), m);
            lemma_matches_split(s, pos, h, json_state(data));
        },
        Event::Comment { data, date_time } => {
            let h = event_head(e);
            lemma_matches_split(
                s,
                pos,
                h + json_string(data@) + m + json_string(date_time@),
                t,
            );
            lemma_matches_split(s, pos, h + json_string(data@) + m, json_string(date_time@));
            lemma_matches_split(s, pos, h + json_string(data@), m);
            lemma_matches_split(s, pos, h, json_string(data@));
        },
    }
}

/// Only one event head can open the input at a given position.
proof fn lemma_event_head_unique(s: Seq<char>, pos: int, e: Event, h: Seq<char>)
    requires
        matches_at(s, pos, event_head(e)),
        matches_at(s, pos, h),
        h == "{\"type\":\"description\",\"data\":"@ || h == "{\"type\":\"state\",\"data\":"@ || h
            == "{\"type\":\"comment\",\"data\":"@,
    ensures
        event_head(e) == h,
{
    lemma_event_heads();
    assert(s.subrange(pos, pos + event_head(e).len())[9] == s[pos + 9]);
    assert(s.subrange(pos, pos + h.len())[9] == s[pos + 9]);
}

/// Parses one event record at `pos`: whenever some event's rendering
/// occupies the input there, the parse succeeds and consumes exactly it.
#[verifier::rlimit(100)]
#[verifier::spinoff_prover]
fn parse_event(s: &str, pos: usize) -> (r: Option<(Event, usize)>)
    requires
        pos <= s@.len(),
    ensures
        r matches Some((e, end)) ==> {
            &&& pos < end <= s@.len()
            &&& s@.subrange(pos as int, end as int) == json_event(e)
        },
        forall|e2: Event| #[trigger]
            matches_at(s@, pos as int, json_event(e2)) ==> match r {
                Some((v, end)) => end == pos + json_event(e2).len(),
                None => false,
            },
{
    if let Some(p1) = expect_lit(s, pos, "{\"type\":\"description\",\"data\":") {
        let (data, p2) = match parse_string(s, p1) {
            Some(x) => x,
            None => {
                proof {
                    assert forall|e2: Event| #[trigger]
                        matches_at(s@, pos as int, json_event(e2)) implies false by {
                        lemma_event_parts(s@, pos as int, e2);
                        lemma_event_head_unique(
                            s@,
                            pos as int,
                            e2,
                            "{\"type\":\"description\",\"data\":"@,
                        );
                        lemma_event_heads();
                        match e2 {
                            Event::Description { .. } => {},
                            _ => {
                                assert(false);
                            },
                        }
                    }
                }
                return None;
            },
        };
        let p3 = match expect_lit(s, p2, ",\"date_time\":") {
            Some(x) => x,
            None => {
                proof {
                    assert forall|e2: Event| #[trigger]
                        matches_at(s@, pos as int, json_event(e2)) implies false by {
                        lemma_event_parts(s@, pos as int, e2);
                        lemma_event_head_unique(
                            s@,
                            pos as int,
                            e2,
                            "{\"type\":\"description\",\"data\":"@,
                        );
                        lemma_event_heads();
                        match e2 {
                            Event::Description { .. } => {},
                            _ => {
                                assert(false);
                            },
                        }
                    }
                }
                return None;
            },
        };
        let (date_time, p4) = match parse_string(s, p3) {
            Some(x) => x,
            None => {
                proof {
                    assert forall|e2: Event| #[trigger]
                        matches_at(s@, pos as int, json_event(e2)) implies false by {
                        lemma_event_parts(s@, pos as int, e2);
                        lemma_event_head_unique(
                            s@,
                            pos as int,
                            e2,
                            "{\"type\":\"description\",\"data\":"@,
                        );
                        lemma_event_heads();
                        match e2 {
                            Event::Description { .. } => {},
                            _ => {
                                assert(false);
                            },
                        }
                    }
                }
                return None;
            },
        };
        let p5 = match expect_lit(s, p4, "}") {
            Some(x) => x,
            None => {
                proof {
                    assert forall|e2: Event| #[trigger]
                        matches_at(s@, pos as int, json_event(e2)) implies false by {
                        lemma_event_parts(s@, pos as int, e2);
                        lemma_event_head_unique(
                            s@,
                            pos as int,
                            e2,
                            "{\"type\":\"description\",\"data\":"@,
                        );
                        lemma_event_heads();
                        match e2 {
                            Event::Description { .. } => {},
                            _ => {
                                assert(false);
                            },
                        }
                    }
                }
                return None;
            },
        };
        let e = Event::Description { data, date_time };
        proof {
            assert(s@.subrange(pos as int, p5 as int) =~= json_event(e));
            assert forall|e2: Event| #[trigger]
                matches_at(s@, pos as int, json_event(e2)) implies p5 == pos + json_event(
                e2,
            ).len() by {
                lemma_event_parts(s@, pos as int, e2);
                lemma_event_head_unique(
                    s@,
                    pos as int,
                    e2,
                    "{\"type\":\"description\",\"data\":"@,
                );
                lemma_event_heads();
                match e2 {
                    Event::Description { .. } => {},
                    _ => {
                        assert(false);
                    },
                }
            }
        }
        return Some((e, p5));
    }
    if let Some(p1) = expect_lit(s, pos, "{\"type\":\"state\",\"data\":") {
        let (data, p2) = match parse_state(s, p1) {
            Some(x) => x,
            None => {
                proof {
                    assert forall|e2: Event| #[trigger]
                        matches_at(s@, pos as int, json_event(e2)) implies false by {
                        lemma_event_parts(s@, pos as int, e2);
                        lemma_event_head_unique(
                            s@,
                            pos as int,
                            e2,
                            "{\"type\":\"state\",\"data\":"@,
                        );
                        lemma_event_heads();
                        match e2 {
                            Event::State { .. } => {},
                            _ => {
                                assert(false);
                            },
                        }
                    }
                }
                return None;
            },
        };
        let p3 = match expect_lit(s, p2, ",\"date_time\":") {
            Some(x) => x,
            None => {
                proof {
                    assert forall|e2: Event| #[trigger]
                        matches_at(s@, pos as int, json_event(e2)) implies false by {
                        lemma_event_parts(s@, pos as int, e2);
                        lemma_event_head_unique(
                            s@,
                            pos as int,
                            e2,
                            "{\"type\":\"state\",\"data\":"@,
                        );
                        lemma_event_heads();
                        match e2 {
                            Event::State { .. } => {},
                            _ => {
                                assert(false);
                            },
                        }
                    }
                }
                return None;
            },
        };
        let (date_time, p4) = match parse_string(s, p3) {
            Some(x) => x,
            None => {
                proof {
                    assert forall|e2: Event| #[trigger]
                        matches_at(s@, pos as int, json_event(e2)) implies false by {
                        lemma_event_parts(s@, pos as int, e2);
                        lemma_event_head_unique(
                            s@,
                            pos as int,
                            e2,
                            "{\"type\":\"state\",\"data\":"@,
                        );
                        lemma_event_heads();
                        match e2 {
                            Event::State { .. } => {},
                            _ => {
                                assert(false);
                            },
                        }
                    }
                }
                return None;
            },
        };
        let p5 = match expect_lit(s, p4, "}") {
            Some(x) => x,
            None => {
                proof {
                    assert forall|e2: Event| #[trigger]
                        matches_at(s@, pos as int, json_event(e2)) implies false by {
                        lemma_event_parts(s@, pos as int, e2);
                        lemma_event_head_unique(
                            s@,
                            pos as int,
                            e2,
                            "{\"type\":\"state\",\"data\":"@,
                        );
                        lemma_event_heads();
                        match e2 {
                            Event::State { .. } => {},
                            _ => {
                                assert(false);
                            },
                        }
                    }
                }
                return None;
            },
        };
        let e = Event::State { data, date_time };
        proof {
            assert(s@.subrange(pos as int, p5 as int) =~= json_event(e));
            assert forall|e2: Event| #[trigger]
                matches_at(s@, pos as int, json_event(e2)) implies p5 == pos + json_event(
                e2,
            ).len() by {
                lemma_event_parts(s@, pos as int, e2);
                lemma_event_head_unique(s@, pos as int, e2, "{\"type\":\"state\",\"data\":"@);
                lemma_event_heads();
                match e2 {
                    Event::State { .. } => {},
                    _ => {
                        assert(false);
                    },
                }
            }
        }
        return Some((e, p5));
    }
    if let Some(p1) = expect_lit(s, pos, "{\"type\":\"comment\",\"data\":") {
        let (data, p2) = match parse_string(s, p1) {
            Some(x) => x,
            None => {
                proof {
                    assert forall|e2: Event| #[trigger]
                        matches_at(s@, pos as int, json_event(e2)) implies false by {
                        lemma_event_parts(s@, pos as int, e2);
                        lemma_event_head_unique(
                            s@,
                            pos as int,
                            e2,
                            "{\"type\":\"comment\",\"data\":"@,
                        );
                        lemma_event_heads();
                        match e2 {
                            Event::Comment { .. } => {},
                            _ => {
                                assert(false);
                            },
                        }
                    }
                }
                return None;
            },
        };
        let p3 = match expect_lit(s, p2, ",\"date_time\":") {
            Some(x) => x,
            None => {
                proof {
                    assert forall|e2: Event| #[trigger]
                        matches_at(s@, pos as int, json_event(e2)) implies false by {
                        lemma_event_parts(s@, pos as int, e2);
                        lemma_event_head_unique(
                            s@,
                            pos as int,
                            e2,
                            "{\"type\":\"comment\",\"data\":"@,
                        );
                        lemma_event_heads();
                        match e2 {
                            Event::Comment { .. } => {},
                            _ => {
                                assert(false);
                            },
                        }
                    }
                }
                return None;
            },
        };
        let (date_time, p4) = match parse_string(s, p3) {
            Some(x) => x,
            None => {
                proof {
                    assert forall|e2: Event| #[trigger]
                        matches_at(s@, pos as int, json_event(e2)) implies false by {
                        lemma_event_parts(s@, pos as int, e2);
                        lemma_event_head_unique(
                            s@,
                            pos as int,
                            e2,
                            "{\"type\":\"comment\",\"data\":"@,
                        );
                        lemma_event_heads();
                        match e2 {
                            Event::Comment { .. } => {},
                            _ => {
                                assert(false);
                            },
                        }
                    }
                }
                return None;
            },
        };
        let p5 = match expect_lit(s, p4, "}") {
            Some(x) => x,
            None => {
                proof {
                    assert forall|e2: Event| #[trigger]
                        matches_at(s@, pos as int, json_event(e2)) implies false by {
                        lemma_event_parts(s@, pos as int, e2);
                        lemma_event_head_unique(
                            s@,
                            pos as int,
                            e2,
                            "{\"type\":\"comment\",\"data\":"@,
                        );
                        lemma_event_heads();
                        match e2 {
                            Event::Comment { .. } => {},
                            _ => {
                                assert(false);
                            },
                        }
                    }
                }
                return None;
            },
        };
        let e = Event::Comment { data, date_time };
        proof {
            assert(s@.subrange(pos as int, p5 as int) =~= json_event(e));
            assert forall|e2: Event| #[trigger]
                matches_at(s@, pos as int, json_event(e2)) implies p5 == pos + json_event(
                e2,
            ).len() by {
                lemma_event_parts(s@, pos as int, e2);
                lemma_event_head_unique(s@, pos as int, e2, "{\"type\":\"comment\",\"data\":"@);
                lemma_event_heads();
                match e2 {
                    Event::Comment { .. } => {},
                    _ => {
                        assert(false);
                    },
                }
            }
        }
        return Some((e, p5));
    }
    proof {
        assert forall|e2: Event| #[trigger]
            matches_at(s@, pos as int, json_event(e2)) implies false by {
            lemma_event_parts(s@, pos as int, e2);
            match e2 {
                Event::Description { .. } => {},
                Event::State { .. } => {},
                Event::Comment { .. } => {},
            }
        }
    }
    None
}

/// A joined event list splits at any record boundary after the first.
#[verifier::rlimit(50)]
#[verifier::spinoff_prover]
proof fn lemma_json_event_seq_split(evts: Seq<Event>, j: int)
    requires
        1 <= j < evts.len(),
    ensures
        json_event_seq(evts) == json_event_seq(evts.take(j)) + ","@ + json_event_seq(evts.skip(j)),
    decreases j,
{
    if j == 1 {
        assert(evts.take(1) =~= seq![evts[0]]);
        assert(json_event_seq(evts) =~= json_event_seq(evts.take(1)) + ","@ + json_event_seq(
            evts.skip(1),
        ));
    } else {
        lemma_json_event_seq_split(evts.skip(1), j - 1);
        assert(evts.skip(1).take(j - 1) =~= evts.take(j).skip(1));
        assert(evts.skip(1).skip(j - 1) =~= evts.skip(j));
        assert(evts.take(j)[0] == evts[0]);
        assert(json_event_seq(evts) =~= json_event_seq(evts.take(j)) + ","@ + json_event_seq(
            evts.skip(j),
        ));
    }
}

/// Each event record's rendering is nonempty and opens with a brace.
proof fn lemma_json_event_len(e: Event)
    ensures
        json_event(e).len() >= 10,
        json_event(e)[0] == '{',
{
    lemma_event_heads();
    match e {
        Event::Description { .. } => {},
        Event::State { .. } => {},
        Event::Comment { .. } => {},
    }
}

/// Within a matching joined event list, record `j` matches right after its
/// separating comma (or at the start, for the first record).
#[verifier::rlimit(50)]
#[verifier::spinoff_prover]
proof fn lemma_event_list_parts(s: Seq<char>, pos: int, evts: Seq<Event>, j: int)
    requires
        matches_at(s, pos, json_event_seq(evts)),
        0 <= j < evts.len(),
    ensures
        j == 0 ==> matches_at(s, pos, json_event(evts[0])) && json_event_seq(evts.take(1))
            == json_event(evts[0]),
        j >= 1 ==> {
            &&& s[pos + json_event_seq(evts.take(j)).len()] == ','
            &&& matches_at(
                s,
                pos + json_event_seq(evts.take(j)).len() + 1,
                json_event(evts[j]),
            )
            &&& json_event_seq(evts.take(j + 1)).len() == json_event_seq(evts.take(j)).len() + 1
                + json_event(evts[j]).len()
        },
{
    reveal_strlit(",");
    if j == 0 {
        assert(evts.take(1) =~= seq![evts[0]]);
        if evts.len() == 1 {
            assert(evts =~= seq![evts[0]]);
        } else {
            assert(json_event_seq(evts) =~= json_event(evts[0]) + (","@ + json_event_seq(
                evts.skip(1),
            )));
            lemma_matches_split(s, pos, json_event(evts[0]), ","@ + json_event_seq(evts.skip(1)));
        }
    } else {
        lemma_json_event_seq_split(evts, j);
        let head = json_event_seq(evts.take(j));
        lemma_matches_split(s, pos, head + ","@, json_event_seq(evts.skip(j)));
        lemma_matches_split(s, pos, head, ","@);
        assert(s.subrange(pos + head.len(), pos + head.len() + 1)[0] == s[pos + head.len()]);
        let rest = evts.skip(j);
        assert(rest[0] == evts[j]);
        if rest.len() == 1 {
            assert(json_event_seq(rest) == json_event(evts[j]));
        } else {
            assert(json_event_seq(rest) =~= json_event(evts[j]) + (","@ + json_event_seq(
                rest.skip(1),
            )));
            lemma_matches_split(
                s,
                pos + head.len() + 1,
                json_event(evts[j]),
                ","@ + json_event_seq(rest.skip(1)),
            );
        }
        assert(evts.take(j + 1) =~= evts.take(j).push(evts[j]));
        lemma_json_event_seq_snoc(evts.take(j), evts[j]);
    }
}

/// A joined event list occupies the input at `pos`, with the closing bracket
/// of its surrounding array right after it.
spec fn event_list_matches(s: Seq<char>, pos: int, evts: Seq<Event>) -> bool {
    &&& matches_at(s, pos, json_event_seq(evts))
    &&& pos + json_event_seq(evts).len() < s.len()
    &&& s[pos + json_event_seq(evts).len()] == ']'
}

/// Parses the comma-joined event records at `pos`, stopping before the first
/// character that continues no record: whenever a joined list followed by its
/// closing bracket occupies the input there, the parse succeeds and consumes
/// exactly the list.
fn parse_event_list(s: &str, pos: usize) -> (r: Option<(Vec<Event>, usize)>)
    requires
        pos <= s@.len(),
    ensures
        r matches Some((events, end)) ==> {
            &&& pos <= end <= s@.len()
            &&& s@.subrange(pos as int, end as int) == json_event_seq(events@)
        },
        forall|evts2: Seq<Event>| #[trigger]
            event_list_matches(s@, pos as int, evts2) ==> match r {
                Some((v, end)) => end == pos + json_event_seq(evts2).len(),
                None => false,
            },
{
    let n = s.unicode_len();
    let mut events: Vec<Event> = Vec::new();
    let mut i: usize;
    match parse_event(s, pos) {
        None => {
            proof {
                assert(s@.subrange(pos as int, pos as int) =~= json_event_seq(events@));
                assert forall|evts2: Seq<Event>| #[trigger]
                    event_list_matches(s@, pos as int, evts2) implies pos == pos + json_event_seq(
                    evts2,
                ).len() by {
                    if evts2.len() >= 1 {
                        lemma_event_list_parts(s@, pos as int, evts2, 0);
                        assert(false);
                    }
                }
            }
            return Some((events, pos));
        },
        Some((e, p)) => {
            proof {
                assert forall|evts2: Seq<Event>| #[trigger]
                    event_list_matches(s@, pos as int, evts2) implies 1 <= evts2.len() && p == pos
                    + json_event_seq(evts2.take(1)).len() by {
                    if evts2.len() == 0 {
                        lemma_json_event_len(e);
                        assert(s@.subrange(pos as int, p as int)[0] == s@[pos as int]);
                        assert(false);
                    } else {
                        lemma_event_list_parts(s@, pos as int, evts2, 0);
                    }
                }
            }
            events.push(e);
            i = p;
        },
    }
    loop
        invariant
            n == s@.len(),
            pos <= i <= n,
            events@.len() >= 1,
            s@.subrange(pos as int, i as int) == json_event_seq(events@),
            forall|evts2: Seq<Event>| #[trigger]
                event_list_matches(s@, pos as int, evts2) ==> {
                    &&& events@.len() <= evts2.len()
                    &&& i == pos + json_event_seq(evts2.take(events@.len() as int)).len()
                },
        decreases n - i,
    {
        if i >= n {
            proof {
                assert forall|evts2: Seq<Event>| #[trigger]
                    event_list_matches(s@, pos as int, evts2) implies i == pos + json_event_seq(
                    evts2,
                ).len() by {
                    let j = events@.len() as int;
                    if j < evts2.len() {
                        lemma_event_list_parts(s@, pos as int, evts2, j);
                        assert(false);
                    }
                    assert(evts2.take(j) =~= evts2);
                    assert(false);
                }
            }
            return Some((events, i));
        }
        if s.get_char(i) != ',' {
            proof {
                assert forall|evts2: Seq<Event>| #[trigger]
                    event_list_matches(s@, pos as int, evts2) implies i == pos + json_event_seq(
                    evts2,
                ).len() by {
                    let j = events@.len() as int;
                    if j < evts2.len() {
                        lemma_event_list_parts(s@, pos as int, evts2, j);
                        assert(false);
                    }
                    assert(evts2.take(j) =~= evts2);
                }
            }
            return Some((events, i));
        }
        match parse_event(s, i + 1) {
            None => {
                proof {
                    assert forall|evts2: Seq<Event>| #[trigger]
                        event_list_matches(s@, pos as int, evts2) implies i == pos
                        + json_event_seq(evts2).len() by {
                        let j = events@.len() as int;
                        if j < evts2.len() {
                            lemma_event_list_parts(s@, pos as int, evts2, j);
                            assert(false);
                        } else {
                            assert(evts2.take(j) =~= evts2);
                            assert(false);
                        }
                    }
                }
                return Some((events, i));
            },
            Some((e, p)) => {
                proof {
                    reveal_strlit(",");
                    lemma_json_event_seq_snoc(events@, e);
                    assert(s@.subrange(pos as int, p as int) =~= json_event_seq(events@) + ","@
                        + json_event(e));
                    assert forall|evts2: Seq<Event>| #[trigger]
                        event_list_matches(s@, pos as int, evts2) implies events@.len() + 1
                        <= evts2.len() && p == pos + json_event_seq(
                        evts2.take(events@.len() as int + 1),
                    ).len() by {
                        let j = events@.len() as int;
                        if j == evts2.len() {
                            assert(evts2.take(j) =~= evts2);
                            assert(false);
                        }
                        lemma_event_list_parts(s@, pos as int, evts2, j);
                    }
                }
                events.push(e);
                i = p;
            },
        }
    }
}

/// Each task record's rendering is nonempty and opens with a brace.
proof fn lemma_json_task_len(t: Task)
    ensures
        json_task(t).len() >= 1,
        json_task(t)[0] == '{',
{
    reveal_strlit("{\"id\":");
}

/// A match of a task record splits into matches of its parts, with the
/// record's event list followed by its closing bracket.
proof fn lemma_task_parts(s: Seq<char>, pos: int, t: Task)
    requires
        matches_at(s, pos, json_task(t)),
    ensures
        ({
            let p0 = pos + "{\"id\":"@.len();
            let p1 = p0 + json_string(t.id@).len();
            let p2 = p1 + ",\"created_at\":"@.len();
            let p3 = p2 + json_string(t.created_at@).len();
            let p4 = p3 + ",\"events\":["@.len();
            let p5 = p4 + json_event_seq(t.events@).len();
            &&& matches_at(s, pos, "{\"id\":"@)
            &&& matches_at(s, p0, json_string(t.id@))
            &&& matches_at(s, p1, ",\"created_at\":"@)
            &&& matches_at(s, p2, json_string(t.created_at@))
            &&& matches_at(s, p3, ",\"events\":["@)
            &&& event_list_matches(s, p4, t.events@)
            &&& matches_at(s, p5, "]}"@)
            &&& p5 + "]}"@.len() == pos + json_task(t).len()
        }),
{
    let h = "{\"id\":"@;
    let l1 = ",\"created_at\":"@;
    let l2 = ",\"events\":["@;
    let tail = "]}"@;
    lemma_matches_split(
        s,
        pos,
        h + json_string(t.id@) + l1 + json_string(t.created_at@) + l2 + json_event_seq(t.events@),
        tail,
    );
    lemma_matches_split(
        s,
        pos,
        h + json_string(t.id@) + l1 + json_string(t.created_at@) + l2,
        json_event_seq(t.events@),
    );
    lemma_matches_split(s, pos, h + json_string(t.id@) + l1 + json_string(t.created_at@), l2);
    lemma_matches_split(s, pos, h + json_string(t.id@) + l1, json_string(t.created_at@));
    lemma_matches_split(s, pos, h + json_string(t.id@), l1);
    lemma_matches_split(s, pos, h, json_string(t.id@));
    reveal_strlit("]}");
    let p5 = pos + h.len() + json_string(t.id@).len() + l1.len() + json_string(
        t.created_at@,
    ).len() + l2.len() + json_event_seq(t.events@).len();
    assert(s.subrange(p5, p5 + tail.len())[0] == s[p5]);
}

/// Parses one task record at `pos`: whenever some task's rendering occupies
/// the input there, the parse succeeds and consumes exactly it.
fn parse_task(s: &str, pos: usize) -> (r: Option<(Task, usize)>)
    requires
        pos <= s@.len(),
    ensures
        r matches Some((t, end)) ==> {
            &&& pos < end <= s@.len()
            &&& s@.subrange(pos as int, end as int) == json_task(t)
        },
        forall|t2: Task| #[trigger]
            matches_at(s@, pos as int, json_task(t2)) ==> match r {
                Some((v, end)) => end == pos + json_task(t2).len(),
                None => false,
            },
{
    let p1 = match expect_lit(s, pos, "{\"id\":") {
        Some(x) => x,
        None => {
            proof {
                assert forall|t2: Task| #[trigger]
                    matches_at(s@, pos as int, json_task(t2)) implies false by {
                    lemma_task_parts(s@, pos as int, t2);
                }
            }
            return None;
        },
    };
    let (id, p2) = match parse_string(s, p1) {
        Some(x) => x,
        None => {
            proof {
                assert forall|t2: Task| #[trigger]
                    matches_at(s@, pos as int, json_task(t2)) implies false by {
                    lemma_task_parts(s@, pos as int, t2);
                }
            }
            return None;
        },
    };
    let p3 = match expect_lit(s, p2, ",\"created_at\":") {
        Some(x) => x,
        None => {
            proof {
                assert forall|t2: Task| #[trigger]
                    matches_at(s@, pos as int, json_task(t2)) implies false by {
                    lemma_task_parts(s@, pos as int, t2);
                }
            }
            return None;
        },
    };
    let (created_at, p4) = match parse_string(s, p3) {
        Some(x) => x,
        None => {
            proof {
                assert forall|t2: Task| #[trigger]
                    matches_at(s@, pos as int, json_task(t2)) implies false by {
                    lemma_task_parts(s@, pos as int, t2);
                }
            }
            return None;
        },
    };
    let p5 = match expect_lit(s, p4, ",\"events\":[") {
        Some(x) => x,
        None => {
            proof {
                assert forall|t2: Task| #[trigger]
                    matches_at(s@, pos as int, json_task(t2)) implies false by {
                    lemma_task_parts(s@, pos as int, t2);
                }
            }
            return None;
        },
    };
    let (events, p6) = match parse_event_list(s, p5) {
        Some(x) => x,
        None => {
            proof {
                assert forall|t2: Task| #[trigger]
                    matches_at(s@, pos as int, json_task(t2)) implies false by {
                    lemma_task_parts(s@, pos as int, t2);
                }
            }
            return None;
        },
    };
    let p7 = match expect_lit(s, p6, "]}") {
        Some(x) => x,
        None => {
            proof {
                assert forall|t2: Task| #[trigger]
                    matches_at(s@, pos as int, json_task(t2)) implies false by {
                    lemma_task_parts(s@, pos as int, t2);
                }
            }
            return None;
        },
    };
    let t = Task { id, created_at, events };
    proof {
        assert(s@.subrange(pos as int, p7 as int) =~= json_task(t));
        assert forall|t2: Task| #[trigger]
            matches_at(s@, pos as int, json_task(t2)) implies p7 == pos + json_task(t2).len() by {
            lemma_task_parts(s@, pos as int, t2);
        }
    }
    Some((t, p7))
}

/// A joined task list splits at any record boundary after the first.
#[verifier::rlimit(50)]
#[verifier::spinoff_prover]
proof fn lemma_json_task_seq_split(ts: Seq<Task>, j: int)
    requires
        1 <= j < ts.len(),
    ensures
        json_task_seq(ts) == json_task_seq(ts.take(j)) + ","@ + json_task_seq(ts.skip(j)),
    decreases j,
{
    if j == 1 {
        assert(ts.take(1) =~= seq![ts[0]]);
        assert(json_task_seq(ts) =~= json_task_seq(ts.take(1)) + ","@ + json_task_seq(
            ts.skip(1),
        ));
    } else {
        lemma_json_task_seq_split(ts.skip(1), j - 1);
        assert(ts.skip(1).take(j - 1) =~= ts.take(j).skip(1));
        assert(ts.skip(1).skip(j - 1) =~= ts.skip(j));
        assert(ts.take(j)[0] == ts[0]);
        assert(json_task_seq(ts) =~= json_task_seq(ts.take(j)) + ","@ + json_task_seq(
            ts.skip(j),
        ));
    }
}

/// Within a matching joined task list, record `j` matches right after its
/// separating comma (or at the start, for the first record).
#[verifier::rlimit(50)]
#[verifier::spinoff_prover]
proof fn lemma_task_list_parts(s: Seq<char>, pos: int, ts: Seq<Task>, j: int)
    requires
        matches_at(s, pos, json_task_seq(ts)),
        0 <= j < ts.len(),
    ensures
        j == 0 ==> matches_at(s, pos, json_task(ts[0])) && json_task_seq(ts.take(1))
            == json_task(ts[0]),
        j >= 1 ==> {
            &&& s[pos + json_task_seq(ts.take(j)).len()] == ','
            &&& matches_at(
                s,
                pos + json_task_seq(ts.take(j)).len() + 1,
                json_task(ts[j]),
            )
            &&& json_task_seq(ts.take(j + 1)).len() == json_task_seq(ts.take(j)).len() + 1
                + json_task(ts[j]).len()
        },
{
    reveal_strlit(",");
    if j == 0 {
        assert(ts.take(1) =~= seq![ts[0]]);
        if ts.len() == 1 {
            assert(ts =~= seq![ts[0]]);
        } else {
            assert(json_task_seq(ts) =~= json_task(ts[0]) + (","@ + json_task_seq(
                ts.skip(1),
            )));
            lemma_matches_split(s, pos, json_task(ts[0]), ","@ + json_task_seq(ts.skip(1)));
        }
    } else {
        lemma_json_task_seq_split(ts, j);
        let head = json_task_seq(ts.take(j));
        lemma_matches_split(s, pos, head + ","@, json_task_seq(ts.skip(j)));
        lemma_matches_split(s, pos, head, ","@);
        assert(s.subrange(pos + head.len(), pos + head.len() + 1)[0] == s[pos + head.len()]);
        let rest = ts.skip(j);
        assert(rest[0] == ts[j]);
        if rest.len() == 1 {
            assert(json_task_seq(rest) == json_task(ts[j]));
        } else {
            assert(json_task_seq(rest) =~= json_task(ts[j]) + (","@ + json_task_seq(
                rest.skip(1),
            )));
            lemma_matches_split(
                s,
                pos + head.len() + 1,
                json_task(ts[j]),
                ","@ + json_task_seq(rest.skip(1)),
            );
        }
        assert(ts.take(j + 1) =~= ts.take(j).push(ts[j]));
        lemma_json_task_seq_snoc(ts.take(j), ts[j]);
    }
}

/// A joined task list occupies the input at `pos`, with the closing bracket
/// of its surrounding array right after it.
spec fn task_list_matches(s: Seq<char>, pos: int, ts: Seq<Task>) -> bool {
    &&& matches_at(s, pos, json_task_seq(ts))
    &&& pos + json_task_seq(ts).len() < s.len()
    &&& s[pos + json_task_seq(ts).len()] == ']'
}

/// Parses the comma-joined task records at `pos`, stopping before the first
/// character that continues no record: whenever a joined list followed by its
/// closing bracket occupies the input there, the parse succeeds and consumes
/// exactly the list.
fn parse_task_list(s: &str, pos: usize) -> (r: Option<(Vec<Task>, usize)>)
    requires
        pos <= s@.len(),
    ensures
        r matches Some((tasks, end)) ==> {
            &&& pos <= end <= s@.len()
            &&& s@.subrange(pos as int, end as int) == json_task_seq(tasks@)
        },
        forall|tasks2: Seq<Task>| #[trigger]
            task_list_matches(s@, pos as int, tasks2) ==> match r {
                Some((v, end)) => end == pos + json_task_seq(tasks2).len(),
                None => false,
            },
{
    let n = s.unicode_len();
    let mut tasks: Vec<Task> = Vec::new();
    let mut i: usize;
    match parse_task(s, pos) {
        None => {
            proof {
                assert(s@.subrange(pos as int, pos as int) =~= json_task_seq(tasks@));
                assert forall|tasks2: Seq<Task>| #[trigger]
                    task_list_matches(s@, pos as int, tasks2) implies pos == pos + json_task_seq(
                    tasks2,
                ).len() by {
                    if tasks2.len() >= 1 {
                        lemma_task_list_parts(s@, pos as int, tasks2, 0);
                        assert(false);
                    }
                }
            }
            return Some((tasks, pos));
        },
        Some((e, p)) => {
            proof {
                assert forall|tasks2: Seq<Task>| #[trigger]
                    task_list_matches(s@, pos as int, tasks2) implies 1 <= tasks2.len() && p == pos
                    + json_task_seq(tasks2.take(1)).len() by {
                    if tasks2.len() == 0 {
                        lemma_json_task_len(e);
                        assert(s@.subrange(pos as int, p as int)[0] == s@[pos as int]);
                        assert(false);
                    } else {
                        lemma_task_list_parts(s@, pos as int, tasks2, 0);
                    }
                }
            }
            tasks.push(e);
            i = p;
        },
    }
    loop
        invariant
            n == s@.len(),
            pos <= i <= n,
            tasks@.len() >= 1,
            s@.subrange(pos as int, i as int) == json_task_seq(tasks@),
            forall|tasks2: Seq<Task>| #[trigger]
                task_list_matches(s@, pos as int, tasks2) ==> {
                    &&& tasks@.len() <= tasks2.len()
                    &&& i == pos + json_task_seq(tasks2.take(tasks@.len() as int)).len()
                },
        decreases n - i,
    {
        if i >= n {
            proof {
                assert forall|tasks2: Seq<Task>| #[trigger]
                    task_list_matches(s@, pos as int, tasks2) implies i == pos + json_task_seq(
                    tasks2,
                ).len() by {
                    let j = tasks@.len() as int;
                    if j < tasks2.len() {
                        lemma_task_list_parts(s@, pos as int, tasks2, j);
                        assert(false);
                    }
                    assert(tasks2.take(j) =~= tasks2);
                    assert(false);
                }
            }
            return Some((tasks, i));
        }
        if s.get_char(i) != ',' {
            proof {
                assert forall|tasks2: Seq<Task>| #[trigger]
                    task_list_matches(s@, pos as int, tasks2) implies i == pos + json_task_seq(
                    tasks2,
                ).len() by {
                    let j = tasks@.len() as int;
                    if j < tasks2.len() {
                        lemma_task_list_parts(s@, pos as int, tasks2, j);
                        assert(false);
                    }
                    assert(tasks2.take(j) =~= tasks2);
                }
            }
            return Some((tasks, i));
        }
        match parse_task(s, i + 1) {
            None => {
                proof {
                    assert forall|tasks2: Seq<Task>| #[trigger]
                        task_list_matches(s@, pos as int, tasks2) implies i == pos
                        + json_task_seq(tasks2).len() by {
                        let j = tasks@.len() as int;
                        if j < tasks2.len() {
                            lemma_task_list_parts(s@, pos as int, tasks2, j);
                            assert(false);
                        } else {
                            assert(tasks2.take(j) =~= tasks2);
                            assert(false);
                        }
                    }
                }
                return Some((tasks, i));
            },
            Some((e, p)) => {
                proof {
                    reveal_strlit(",");
                    lemma_json_task_seq_snoc(tasks@, e);
                    assert(s@.subrange(pos as int, p as int) =~= json_task_seq(tasks@) + ","@
                        + json_task(e));
                    assert forall|tasks2: Seq<Task>| #[trigger]
                        task_list_matches(s@, pos as int, tasks2) implies tasks@.len() + 1
                        <= tasks2.len() && p == pos + json_task_seq(
                        tasks2.take(tasks@.len() as int + 1),
                    ).len() by {
                        let j = tasks@.len() as int;
                        if j == tasks2.len() {
                            assert(tasks2.take(j) =~= tasks2);
                            assert(false);
                        }
                        lemma_task_list_parts(s@, pos as int, tasks2, j);
                    }
                }
                tasks.push(e);
                i = p;
            },
        }
    }
}

/// Each project record's rendering is nonempty and opens with a brace.
proof fn lemma_json_project_len(p: Project)
    ensures
        json_project(p).len() >= 1,
        json_project(p)[0] == '{',
{
    reveal_strlit("{\"id\":");
}

/// A match of a project record splits into matches of its parts, with the
/// record's task list followed by its closing bracket.
proof fn lemma_project_parts(s: Seq<char>, pos: int, p: Project)
    requires
        matches_at(s, pos, json_project(p)),
    ensures
        ({
            let q0 = pos + "{\"id\":"@.len();
            let q1 = q0 + json_string(p.id@).len();
            let q2 = q1 + ",\"description\":"@.len();
            let q3 = q2 + json_string(p.description@).len();
            let q4 = q3 + ",\"notes\":"@.len();
            let q5 = q4 + json_string(p.notes@).len();
            let q6 = q5 + ",\"tasks\":["@.len();
            let q7 = q6 + json_task_seq(p.tasks@).len();
            &&& matches_at(s, pos, "{\"id\":"@)
            &&& matches_at(s, q0, json_string(p.id@))
            &&& matches_at(s, q1, ",\"description\":"@)
            &&& matches_at(s, q2, json_string(p.description@))
            &&& matches_at(s, q3, ",\"notes\":"@)
            &&& matches_at(s, q4, json_string(p.notes@))
            &&& matches_at(s, q5, ",\"tasks\":["@)
            &&& task_list_matches(s, q6, p.tasks@)
            &&& matches_at(s, q7, "]}"@)
            &&& q7 + "]}"@.len() == pos + json_project(p).len()
        }),
{
    let h = "{\"id\":"@;
    let l1 = ",\"description\":"@;
    let l2 = ",\"notes\":"@;
    let l3 = ",\"tasks\":["@;
    let tail = "]}"@;
    lemma_matches_split(
        s,
        pos,
        h + json_string(p.id@) + l1 + json_string(p.description@) + l2 + json_string(p.notes@)
            + l3 + json_task_seq(p.tasks@),
        tail,
    );
    lemma_matches_split(
        s,
        pos,
        h + json_string(p.id@) + l1 + json_string(p.description@) + l2 + json_string(p.notes@)
            + l3,
        json_task_seq(p.tasks@),
    );
    lemma_matches_split(
        s,
        pos,
        h + json_string(p.id@) + l1 + json_string(p.description@) + l2 + json_string(p.notes@),
        l3,
    );
    lemma_matches_split(
        s,
        pos,
        h + json_string(p.id@) + l1 + json_string(p.description@) + l2,
        json_string(p.notes@),
    );
    lemma_matches_split(s, pos, h + json_string(p.id@) + l1 + json_string(p.description@), l2);
    lemma_matches_split(s, pos, h + json_string(p.id@) + l1, json_string(p.description@));
    lemma_matches_split(s, pos, h + json_string(p.id@), l1);
    lemma_matches_split(s, pos, h, json_string(p.id@));
    reveal_strlit("]}");
    let q7 = pos + h.len() + json_string(p.id@).len() + l1.len() + json_string(
        p.description@,
    ).len() + l2.len() + json_string(p.notes@).len() + l3.len() + json_task_seq(p.tasks@).len();
    assert(s.subrange(q7, q7 + tail.len())[0] == s[q7]);
}

/// Parses one project record at `pos`: whenever some project's rendering
/// occupies the input there, the parse succeeds and consumes exactly it.
#[verifier::rlimit(100)]
#[verifier::spinoff_prover]
fn parse_project(s: &str, pos: usize) -> (r: Option<(Project, usize)>)
    requires
        pos <= s@.len(),
    ensures
        r matches Some((p, end)) ==> {
            &&& pos < end <= s@.len()
            &&& s@.subrange(pos as int, end as int) == json_project(p)
        },
        forall|p2: Project| #[trigger]
            matches_at(s@, pos as int, json_project(p2)) ==> match r {
                Some((v, end)) => end == pos + json_project(p2).len(),
                None => false,
            },
{
    let p1 = match expect_lit(s, pos, "{\"id\":") {
        Some(x) => x,
        None => {
            proof {
                assert forall|p2: Project| #[trigger]
                    matches_at(s@, pos as int, json_project(p2)) implies false by {
                    lemma_project_parts(s@, pos as int, p2);
                }
            }
            return None;
        },
    };
    let (id, p2) = match parse_string(s, p1) {
        Some(x) => x,
        None => {
            proof {
                assert forall|p2: Project| #[trigger]
                    matches_at(s@, pos as int, json_project(p2)) implies false by {
                    lemma_project_parts(s@, pos as int, p2);
                }
            }
            return None;
        },
    };
    let p3 = match expect_lit(s, p2, ",\"description\":") {
        Some(x) => x,
        None => {
            proof {
                assert forall|p2: Project| #[trigger]
                    matches_at(s@, pos as int, json_project(p2)) implies false by {
                    lemma_project_parts(s@, pos as int, p2);
                }
            }
            return None;
        },
    };
    let (description, p4) = match parse_string(s, p3) {
        Some(x) => x,
        None => {
            proof {
                assert forall|p2: Project| #[trigger]
                    matches_at(s@, pos as int, json_project(p2)) implies false by {
                    lemma_project_parts(s@, pos as int, p2);
                }
            }
            return None;
        },
    };
    let p5 = match expect_lit(s, p4, ",\"notes\":") {
        Some(x) => x,
        None => {
            proof {
                assert forall|p2: Project| #[trigger]
                    matches_at(s@, pos as int, json_project(p2)) implies false by {
                    lemma_project_parts(s@, pos as int, p2);
                }
            }
            return None;
        },
    };
    let (notes, p6) = match parse_string(s, p5) {
        Some(x) => x,
        None => {
            proof {
                assert forall|p2: Project| #[trigger]
                    matches_at(s@, pos as int, json_project(p2)) implies false by {
                    lemma_project_parts(s@, pos as int, p2);
                }
            }
            return None;
        },
    };
    let p7 = match expect_lit(s, p6, ",\"tasks\":[") {
        Some(x) => x,
        None => {
            proof {
                assert forall|p2: Project| #[trigger]
                    matches_at(s@, pos as int, json_project(p2)) implies false by {
                    lemma_project_parts(s@, pos as int, p2);
                }
            }
            return None;
        },
    };
    let (tasks, p8) = match parse_task_list(s, p7) {
        Some(x) => x,
        None => {
            proof {
                assert forall|p2: Project| #[trigger]
                    matches_at(s@, pos as int, json_project(p2)) implies false by {
                    lemma_project_parts(s@, pos as int, p2);
                }
            }
            return None;
        },
    };
    let p9 = match expect_lit(s, p8, "]}") {
        Some(x) => x,
        None => {
            proof {
                assert forall|p2: Project| #[trigger]
                    matches_at(s@, pos as int, json_project(p2)) implies false by {
                    lemma_project_parts(s@, pos as int, p2);
                }
            }
            return None;
        },
    };
    let p = Project { id, description, notes, tasks };
    proof {
        assert(s@.subrange(pos as int, p9 as int) =~= json_project(p));
        assert forall|p2: Project| #[trigger]
            matches_at(s@, pos as int, json_project(p2)) implies p9 == pos + json_project(
            p2,
        ).len() by {
            lemma_project_parts(s@, pos as int, p2);
        }
    }
    Some((p, p9))
}

/// A joined project list splits at any record boundary after the first.
#[verifier::rlimit(50)]
#[verifier::spinoff_prover]
proof fn lemma_json_project_seq_split(ps: Seq<Project>, j: int)
    requires
        1 <= j < ps.len(),
    ensures
        json_project_seq(ps) == json_project_seq(ps.take(j)) + ","@ + json_project_seq(ps.skip(j)),
    decreases j,
{
    if j == 1 {
        assert(ps.take(1) =~= seq![ps[0]]);
        assert(json_project_seq(ps) =~= json_project_seq(ps.take(1)) + ","@ + json_project_seq(
            ps.skip(1),
        ));
    } else {
        lemma_json_project_seq_split(ps.skip(1), j - 1);
        assert(ps.skip(1).take(j - 1) =~= ps.take(j).skip(1));
        assert(ps.skip(1).skip(j - 1) =~= ps.skip(j));
        assert(ps.take(j)[0] == ps[0]);
        assert(json_project_seq(ps) =~= json_project_seq(ps.take(j)) + ","@ + json_project_seq(
            ps.skip(j),
        ));
    }
}

/// Within a matching joined project list, record `j` matches right after its
/// separating comma (or at the start, for the first record).
#[verifier::rlimit(50)]
#[verifier::spinoff_prover]
proof fn lemma_project_list_parts(s: Seq<char>, pos: int, ps: Seq<Project>, j: int)
    requires
        matches_at(s, pos, json_project_seq(ps)),
        0 <= j < ps.len(),
    ensures
        j == 0 ==> matches_at(s, pos, json_project(ps[0])) && json_project_seq(ps.take(1))
            == json_project(ps[0]),
        j >= 1 ==> {
            &&& s[pos + json_project_seq(ps.take(j)).len()] == ','
            &&& matches_at(
                s,
                pos + json_project_seq(ps.take(j)).len() + 1,
                json_project(ps[j]),
            )
            &&& json_project_seq(ps.take(j + 1)).len() == json_project_seq(ps.take(j)).len() + 1
                + json_project(ps[j]).len()
        },
{
    reveal_strlit(",");
    if j == 0 {
        assert(ps.take(1) =~= seq![ps[0]]);
        if ps.len() == 1 {
            assert(ps =~= seq![ps[0]]);
        } else {
            assert(json_project_seq(ps) =~= json_project(ps[0]) + (","@ + json_project_seq(
                ps.skip(1),
            )));
            lemma_matches_split(s, pos, json_project(ps[0]), ","@ + json_project_seq(ps.skip(1)));
        }
    } else {
        lemma_json_project_seq_split(ps, j);
        let head = json_project_seq(ps.take(j));
        lemma_matches_split(s, pos, head + ","@, json_project_seq(ps.skip(j)));
        lemma_matches_split(s, pos, head, ","@);
        assert(s.subrange(pos + head.len(), pos + head.len() + 1)[0] == s[pos + head.len()]);
        let rest = ps.skip(j);
        assert(rest[0] == ps[j]);
        if rest.len() == 1 {
            assert(json_project_seq(rest) == json_project(ps[j]));
        } else {
            assert(json_project_seq(rest) =~= json_project(ps[j]) + (","@ + json_project_seq(
                rest.skip(1),
            )));
            lemma_matches_split(
                s,
                pos + head.len() + 1,
                json_project(ps[j]),
                ","@ + json_project_seq(rest.skip(1)),
            );
        }
        assert(ps.take(j + 1) =~= ps.take(j).push(ps[j]));
        lemma_json_project_seq_snoc(ps.take(j), ps[j]);
    }
}

/// A joined project list occupies the input at `pos`, with the closing bracket
/// of its surrounding array right after it.
spec fn project_list_matches(s: Seq<char>, pos: int, ps: Seq<Project>) -> bool {
    &&& matches_at(s, pos, json_project_seq(ps))
    &&& pos + json_project_seq(ps).len() < s.len()
    &&& s[pos + json_project_seq(ps).len()] == ']'
}

/// Parses the comma-joined project records at `pos`, stopping before the first
/// character that continues no record: whenever a joined list followed by its
/// closing bracket occupies the input there, the parse succeeds and consumes
/// exactly the list.
fn parse_project_list(s: &str, pos: usize) -> (r: Option<(Vec<Project>, usize)>)
    requires
        pos <= s@.len(),
    ensures
        r matches Some((projects, end)) ==> {
            &&& pos <= end <= s@.len()
            &&& s@.subrange(pos as int, end as int) == json_project_seq(projects@)
        },
        forall|projects2: Seq<Project>| #[trigger]
            project_list_matches(s@, pos as int, projects2) ==> match r {
                Some((v, end)) => end == pos + json_project_seq(projects2).len(),
                None => false,
            },
{
    let n = s.unicode_len();
    let mut projects: Vec<Project> = Vec::new();
    let mut i: usize;
    match parse_project(s, pos) {
        None => {
            proof {
                assert(s@.subrange(pos as int, pos as int) =~= json_project_seq(projects@));
                assert forall|projects2: Seq<Project>| #[trigger]
                    project_list_matches(s@, pos as int, projects2) implies pos == pos + json_project_seq(
                    projects2,
                ).len() by {
                    if projects2.len() >= 1 {
                        lemma_project_list_parts(s@, pos as int, projects2, 0);
                        assert(false);
                    }
                }
            }
            return Some((projects, pos));
        },
        Some((e, p)) => {
            proof {
                assert forall|projects2: Seq<Project>| #[trigger]
                    project_list_matches(s@, pos as int, projects2) implies 1 <= projects2.len() && p == pos
                    + json_project_seq(projects2.take(1)).len() by {
                    if projects2.len() == 0 {
                        lemma_json_project_len(e);
                        assert(s@.subrange(pos as int, p as int)[0] == s@[pos as int]);
                        assert(false);
                    } else {
                        lemma_project_list_parts(s@, pos as int, projects2, 0);
                    }
                }
            }
            projects.push(e);
            i = p;
        },
    }
    loop
        invariant
            n == s@.len(),
            pos <= i <= n,
            projects@.len() >= 1,
            s@.subrange(pos as int, i as int) == json_project_seq(projects@),
            forall|projects2: Seq<Project>| #[trigger]
                project_list_matches(s@, pos as int, projects2) ==> {
                    &&& projects@.len() <= projects2.len()
                    &&& i == pos + json_project_seq(projects2.take(projects@.len() as int)).len()
                },
        decreases n - i,
    {
        if i >= n {
            proof {
                assert forall|projects2: Seq<Project>| #[trigger]
                    project_list_matches(s@, pos as int, projects2) implies i == pos + json_project_seq(
                    projects2,
                ).len() by {
                    let j = projects@.len() as int;
                    if j < projects2.len() {
                        lemma_project_list_parts(s@, pos as int, projects2, j);
                        assert(false);
                    }
                    assert(projects2.take(j) =~= projects2);
                    assert(false);
                }
            }
            return Some((projects, i));
        }
        if s.get_char(i) != ',' {
            proof {
                assert forall|projects2: Seq<Project>| #[trigger]
                    project_list_matches(s@, pos as int, projects2) implies i == pos + json_project_seq(
                    projects2,
                ).len() by {
                    let j = projects@.len() as int;
                    if j < projects2.len() {
                        lemma_project_list_parts(s@, pos as int, projects2, j);
                        assert(false);
                    }
                    assert(projects2.take(j) =~= projects2);
                }
            }
            return Some((projects, i));
        }
        match parse_project(s, i + 1) {
            None => {
                proof {
                    assert forall|projects2: Seq<Project>| #[trigger]
                        project_list_matches(s@, pos as int, projects2) implies i == pos
                        + json_project_seq(projects2).len() by {
                        let j = projects@.len() as int;
                        if j < projects2.len() {
                            lemma_project_list_parts(s@, pos as int, projects2, j);
                            assert(false);
                        } else {
                            assert(projects2.take(j) =~= projects2);
                            assert(false);
                        }
                    }
                }
                return Some((projects, i));
            },
            Some((e, p)) => {
                proof {
                    reveal_strlit(",");
                    lemma_json_project_seq_snoc(projects@, e);
                    assert(s@.subrange(pos as int, p as int) =~= json_project_seq(projects@) + ","@
                        + json_project(e));
                    assert forall|projects2: Seq<Project>| #[trigger]
                        project_list_matches(s@, pos as int, projects2) implies projects@.len() + 1
                        <= projects2.len() && p == pos + json_project_seq(
                        projects2.take(projects@.len() as int + 1),
                    ).len() by {
                        let j = projects@.len() as int;
                        if j == projects2.len() {
                            assert(projects2.take(j) =~= projects2);
                            assert(false);
                        }
                        lemma_project_list_parts(s@, pos as int, projects2, j);
                    }
                }
                projects.push(e);
                i = p;
            },
        }
    }
}

/// A whole document splits into its bracket pair and the joined project
/// records between them.
proof fn lemma_store_parts(s: Seq<char>, ps: Seq<Project>)
    requires
        s == json_store(ps),
    ensures
        matches_at(s, 0, "["@),
        project_list_matches(s, "["@.len() as int, ps),
        matches_at(s, "["@.len() + json_project_seq(ps).len() as int, "]"@),
        s.len() == "["@.len() + json_project_seq(ps).len() + "]"@.len(),
{
    assert(matches_at(s, 0, json_store(ps))) by {
        assert(s.subrange(0, s.len() as int) =~= s);
    }
    lemma_matches_split(s, 0, "["@ + json_project_seq(ps), "]"@);
    lemma_matches_split(s, 0, "["@, json_project_seq(ps));
    reveal_strlit("[");
    reveal_strlit("]");
    let q: int = "["@.len() + json_project_seq(ps).len() as int;
    assert(s.subrange(q, q + "]"@.len() as int)[0] == s[q]);
}

impl Database {
    /// Parses a whole document. Whatever this accepts is the canonical
    /// rendering of the store it returns, so re-serializing the result
    /// yields the identical document; and the serializer's output — any
    /// canonical rendering — is always accepted, so deserializing what
    /// `to_json` wrote never fails.
    pub fn from_json(s: &str) -> (r: Option<Database>)
        ensures
            r matches Some(db) ==> s@ == json_store(db.spec_projects()),
            (exists|ps: Seq<Project>| s@ == json_store(ps)) ==> r is Some,
    {
        let n = s.unicode_len();
        let p1 = match expect_lit(s, 0, "[") {
            Some(x) => x,
            None => {
                proof {
                    if exists|ps: Seq<Project>| s@ == json_store(ps) {
                        let ps = choose|ps: Seq<Project>| s@ == json_store(ps);
                        lemma_store_parts(s@, ps);
                    }
                }
                return None;
            },
        };
        let (projects, p2) = match parse_project_list(s, p1) {
            Some(x) => x,
            None => {
                proof {
                    if exists|ps: Seq<Project>| s@ == json_store(ps) {
                        let ps = choose|ps: Seq<Project>| s@ == json_store(ps);
                        lemma_store_parts(s@, ps);
                    }
                }
                return None;
            },
        };
        let p3 = match expect_lit(s, p2, "]") {
            Some(x) => x,
            None => {
                proof {
                    if exists|ps: Seq<Project>| s@ == json_store(ps) {
                        let ps = choose|ps: Seq<Project>| s@ == json_store(ps);
                        lemma_store_parts(s@, ps);
                    }
                }
                return None;
            },
        };
        if p3 != n {
            proof {
                if exists|ps: Seq<Project>| s@ == json_store(ps) {
                    let ps = choose|ps: Seq<Project>| s@ == json_store(ps);
                    lemma_store_parts(s@, ps);
                }
            }
            return None;
        }
        let ghost gprojects = projects@;
        let db = Database::from_projects(projects);
        proof {
            assert(s@.subrange(0, n as int) =~= s@);
            assert(s@ =~= json_store(gprojects));
        }
        Some(db)
    }

    /// The canonical JSON document holding the whole store.
    #[verifier::rlimit(50)]
    pub fn to_json(&self) -> (r: String)
        ensures
            r@ == json_store(self.spec_projects()),
    {
        let mut out = String::new();
        out.append("[");
        let projects = self.projects();
        let n = projects.len();
        for i in 0..n
            invariant
                n == self.spec_projects().len(),
                out@ == "["@ + json_project_seq(self.spec_projects().take(i as int)),
        {
            if i > 0 {
                out.append(",");
            }
            write_project(&mut out, &self.projects()[i]);
            proof {
                lemma_json_project_seq_snoc(
                    self.spec_projects().take(i as int),
                    self.spec_projects()[i as int],
                );
                assert(self.spec_projects().take(i + 1) =~= self.spec_projects().take(
                    i as int,
                ).push(self.spec_projects()[i as int]));
                assert(out@ =~= "["@ + json_project_seq(self.spec_projects().take(i + 1)));
            }
        }
        out.append("]");
        proof {
            assert(self.spec_projects().take(n as int) =~= self.spec_projects());
            assert(out@ =~= json_store(self.spec_projects()));
        }
        out
    }
}

} // verus!

