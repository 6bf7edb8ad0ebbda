//! Container log files: one line per log entry, `<RFC 3339 timestamp>
//! <text>`, appended in the order the engine delivered them, and read back
//! for analysis.
use vstd::prelude::*;
use vstd::string::*;

verus! {

/// The instant an RFC 3339 timestamp names, in nanoseconds since the Unix
/// epoch; `None` when the text is no RFC 3339 timestamp or the instant does
/// not fit.
pub uninterp spec fn rfc3339_nanos(text: Seq<char>) -> Option<i64>;

/// Relies on `chrono::DateTime::parse_from_rfc3339` and
/// `DateTime::timestamp_nanos_opt`: the instant depends on the text alone.
#[verifier::external_body]
fn parse_rfc3339_nanos(text: &str) -> (r: Option<i64>)
    ensures
        r == rfc3339_nanos(text@),
{
    match chrono::DateTime::parse_from_rfc3339(text) {
        Ok(t) => t.timestamp_nanos_opt(),
        Err(_) => None,
    }
}

/// The position of the first `c` in `s`, or its length when there is none.
pub open spec fn first_index(s: Seq<char>, c: char) -> nat
    decreases s.len(),
{
    if s.len() == 0 {
        0
    } else if s[0] == c {
        0
    } else {
        1 + first_index(s.drop_first(), c)
    }
}

/// A log line split at its first space into timestamp and text; a line
/// without a space holds no entry.
pub open spec fn entry_of(line: Seq<char>) -> Option<(Seq<char>, Seq<char>)> {
    let i = first_index(line, ' ');
    if i < line.len() {
        Some((line.subrange(0, i as int), line.subrange(i + 1int, line.len() as int)))
    } else {
        None
    }
}

/// The entries of a log's lines, in order.
pub open spec fn entries_of(lines: Seq<Seq<char>>) -> Seq<(Seq<char>, Seq<char>)>
    decreases lines.len(),
{
    if lines.len() == 0 {
        Seq::empty()
    } else {
        let rest = entries_of(lines.drop_first());
        match entry_of(lines[0]) {
            Some(e) => seq![e] + rest,
            None => rest,
        }
    }
}

/// The line that records one entry.
pub open spec fn entry_line(timestamp: Seq<char>, text: Seq<char>) -> Seq<char> {
    timestamp + " "@ + text
}

pub open spec fn container_log_prefix() -> Seq<char> {
    "container-"@
}

proof fn lemma_first_index_bound(s: Seq<char>, c: char)
    ensures
        first_index(s, c) <= s.len(),
        first_index(s, c) < s.len() ==> s[first_index(s, c) as int] == c,
        forall|k: int| 0 <= k < first_index(s, c) ==> s[k] != c,
    decreases s.len(),
{
    if s.len() > 0 && s[0] != c {
        lemma_first_index_bound(s.drop_first(), c);
        assert forall|k: int| 0 <= k < first_index(s, c) implies s[k] != c by {
            if k > 0 {
                assert(s[k] == s.drop_first()[k - 1]);
            }
        }
    }
}

proof fn lemma_first_index_after(x: Seq<char>, y: Seq<char>, c: char)
    requires
        !x.contains(c),
    ensures
        first_index(x + y, c) == x.len() + first_index(y, c),
    decreases x.len(),
{
    if x.len() > 0 {
        assert((x + y)[0] == x[0]);
        assert(x.contains(x[0]));
        assert((x + y).drop_first() =~= x.drop_first() + y);
        assert forall|k: int| 0 <= k < x.drop_first().len() implies x.drop_first()[k] != c by {
            assert(x.drop_first()[k] == x[k + 1]);
            assert(x.contains(x[k + 1]));
        }
        lemma_first_index_after(x.drop_first(), y, c);
    } else {
        assert(x + y =~= y);
    }
}

/// Lines written one per entry read back as the same entries, in the same
/// order, whenever no timestamp holds a space.
pub proof fn lemma_log_order(entries: Seq<(Seq<char>, Seq<char>)>)
    requires
        forall|i: int| 0 <= i < entries.len() ==> !(#[trigger] entries[i]).0.contains(' '),
    ensures
        entries_of(entries.map_values(|e: (Seq<char>, Seq<char>)| entry_line(e.0, e.1)))
            == entries,
    decreases entries.len(),
{
    let lines = entries.map_values(|e: (Seq<char>, Seq<char>)| entry_line(e.0, e.1));
    if entries.len() > 0 {
        let e = entries[0];
        reveal_strlit(" ");
        lemma_first_index_after(e.0, " "@ + e.1, ' ');
        assert(e.0 + " "@ + e.1 =~= e.0 + (" "@ + e.1));
        assert((" "@ + e.1)[0] == ' ');
        let line = entry_line(e.0, e.1);
        assert(line.subrange(0, e.0.len() as int) =~= e.0);
        assert(line.subrange(e.0.len() + 1int, line.len() as int) =~= e.1);
        assert(entry_of(lines[0]) == Some(e));
        let rest = entries.drop_first();
        assert forall|i: int| 0 <= i < rest.len() implies !(#[trigger] rest[i]).0.contains(' ') by {
            assert(rest[i] == entries[i + 1]);
        }
        lemma_log_order(rest);
        assert(lines.drop_first() =~= rest.map_values(
            |e: (Seq<char>, Seq<char>)| entry_line(e.0, e.1),
        ));
        assert(seq![e] + rest =~= entries);
    } else {
        assert(lines =~= Seq::<Seq<char>>::empty());
    }
}

proof fn lemma_entries_concat(a: Seq<Seq<char>>, b: Seq<Seq<char>>)
    ensures
        entries_of(a + b) == entries_of(a) + entries_of(b),
    decreases a.len(),
{
    if a.len() == 0 {
        assert(a + b =~= b);
        assert(entries_of(a) + entries_of(b) =~= entries_of(b));
    } else {
        assert((a + b).drop_first() =~= a.drop_first() + b);
        assert((a + b)[0] == a[0]);
        lemma_entries_concat(a.drop_first(), b);
        match entry_of(a[0]) {
            Some(e) => {
                assert(seq![e] + (entries_of(a.drop_first()) + entries_of(b)) =~= (seq![e]
                    + entries_of(a.drop_first())) + entries_of(b));
            },
            None => {},
        }
    }
}

/// Splits a log line at its first space.
pub fn split_entry(line: &String) -> (r: Option<(String, String)>)
    ensures
        match r {
            Some((t, x)) => entry_of(line@) == Some((t@, x@)),
            None => entry_of(line@) is None,
        },
{
    let n = line.as_str().unicode_len();
    proof {
        lemma_first_index_bound(line@, ' ');
    }
    let mut i: usize = 0;
    while i < n
        invariant
            n == line@.len(),
            i <= n,
            forall|k: int| 0 <= k < i ==> line@[k] != ' ',
        decreases n - i,
    {
        if line.as_str().get_char(i) == ' ' {
            proof {
                lemma_first_index_exact(line@, ' ', i as int);
            }
            let timestamp = line.as_str().substring_char(0, i).to_owned();
            let text = line.as_str().substring_char(i + 1, n).to_owned();
            return Some((timestamp, text));
        }
        i = i + 1;
    }
    proof {
        if first_index(line@, ' ') < line@.len() {
            assert(line@[first_index(line@, ' ') as int] == ' ');
        }
    }
    None
}

proof fn lemma_first_index_exact(s: Seq<char>, c: char, i: int)
    requires
        0 <= i < s.len(),
        s[i] == c,
        forall|k: int| 0 <= k < i ==> s[k] != c,
    ensures
        first_index(s, c) == i,
    decreases i,
{
    if i > 0 {
        assert forall|k: int| 0 <= k < i - 1 implies s.drop_first()[k] != c by {
            assert(s.drop_first()[k] == s[k + 1]);
        }
        lemma_first_index_exact(s.drop_first(), c, i - 1);
    }
}

/// Why a log file could not be read back.
pub enum LogsError {
    /// The file's name does not start with the container log prefix.
    BadFileName,
    /// An entry's timestamp is no RFC 3339 timestamp.
    BadTimestamp { text: String },
}

/// A container's log, read back.
pub struct Logs {
    pub container_name: String,
    /// Each entry's instant, in nanoseconds since the Unix epoch, and text.
    pub lines: Vec<(i64, String)>,
}

impl Logs {
    /// Reads a container's log from its file's stem (`container-<name>`)
    /// and lines.
    pub fn from_lines(file_stem: &String, lines: &Vec<String>) -> (r: Result<Logs, LogsError>)
        ensures
            ({
                let p = container_log_prefix();
                let es = entries_of(lines@.map_values(|l: String| l@));
                let parses = forall|k: int|
                    0 <= k < es.len() ==> rfc3339_nanos((#[trigger] es[k]).0) is Some;
                match r {
                    Ok(logs) => {
                        &&& file_stem@.len() >= p.len()
                        &&& file_stem@.subrange(0, p.len() as int) == p
                        &&& logs.container_name@ == file_stem@.subrange(
                            p.len() as int,
                            file_stem@.len() as int,
                        )
                        &&& parses
                        &&& logs.lines@.len() == es.len()
                        &&& forall|k: int|
                            0 <= k < es.len() ==> {
                                &&& Some((#[trigger] logs.lines@[k]).0) == rfc3339_nanos(es[k].0)
                                &&& logs.lines@[k].1@ == es[k].1
                            }
                    },
                    Err(LogsError::BadFileName) => !(file_stem@.len() >= p.len()
                        && file_stem@.subrange(0, p.len() as int) == p),
                    Err(LogsError::BadTimestamp { text }) => {
                        &&& file_stem@.len() >= p.len()
                        &&& file_stem@.subrange(0, p.len() as int) == p
                        &&& exists|k: int|
                            0 <= k < es.len() && (#[trigger] es[k]).0 == text@ && rfc3339_nanos(
                                text@,
                            ) is None
                    },
                }
            }),
    {
        let ghost p = container_log_prefix();
        proof {
            reveal_strlit("container-");
        }
        let n = file_stem.as_str().unicode_len();
        if n < 10 {
            return Err(LogsError::BadFileName);
        }
        let head = file_stem.as_str().substring_char(0, 10).to_owned();
        let prefix = String::from_str("container-");
        if !(head == prefix) {
            return Err(LogsError::BadFileName);
        }
        let container_name = file_stem.as_str().substring_char(10, n).to_owned();
        let ghost views = lines@.map_values(|l: String| l@);
        let mut out: Vec<(i64, String)> = Vec::new();
        let mut i: usize = 0;
        while i < lines.len()
            invariant
                i <= lines@.len(),
                p == container_log_prefix(),
                file_stem@.len() >= p.len(),
                file_stem@.subrange(0, p.len() as int) == p,
                views == lines@.map_values(|l: String| l@),
                out@.len() == entries_of(views.subrange(0, i as int)).len(),
                forall|k: int|
                    0 <= k < out@.len() ==> {
                        let e = entries_of(views.subrange(0, i as int))[k];
                        &&& Some((#[trigger] out@[k]).0) == rfc3339_nanos(e.0)
                        &&& out@[k].1@ == e.1
                    },
            decreases lines@.len() - i,
        {
            let ghost done = views.subrange(0, i as int);
            let ghost next = views.subrange(0, i + 1);
            proof {
                assert(next =~= done + seq![views[i as int]]);
                lemma_entries_concat(done, seq![views[i as int]]);
                assert(seq![views[i as int]].drop_first() =~= Seq::<Seq<char>>::empty());
                assert(entries_of(Seq::<Seq<char>>::empty()) =~= Seq::<(Seq<char>, Seq<char>)>::empty());
                assert(views[i as int] == lines@[i as int]@);
                assert(entries_of(seq![views[i as int]]) =~= match entry_of(views[i as int]) {
                    Some(e) => seq![e],
                    None => Seq::empty(),
                });
            }
            match split_entry(&lines[i]) {
                Some((timestamp, text)) => {
                    match parse_rfc3339_nanos(timestamp.as_str()) {
                        Some(t) => {
                            out.push((t, text));
                            assert(entries_of(next) =~= entries_of(done).push((timestamp@, text@)));
                        },
                        None => {
                            proof {
                                let rest = views.subrange(i + 1, views.len() as int);
                                assert(views =~= next + rest);
                                lemma_entries_concat(next, rest);
                                let es = entries_of(views);
                                let k = entries_of(done).len() as int;
                                assert(es[k] == entries_of(next)[k]);
                                assert(es[k].0 == timestamp@);
                            }
                            return Err(LogsError::BadTimestamp { text: timestamp });
                        },
                    }
                },
                None => {
                    assert(entries_of(next) =~= entries_of(done));
                },
            }
            i = i + 1;
        }
        proof {
            assert(views.subrange(0, views.len() as int) =~= views);
        }
        assert forall|k: int| 0 <= k < entries_of(views).len() implies rfc3339_nanos(
            (#[trigger] entries_of(views)[k]).0,
        ) is Some by {
            assert(Some(out@[k].0) == rfc3339_nanos(entries_of(views)[k].0));
        }
        Ok(Logs { container_name, lines: out })
    }
}

} // verus!
