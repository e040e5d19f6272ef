use vstd::prelude::*;

use crate::chars::views_of;
use crate::entry::{describes, entry_outcome, Entry, ParseError};
use crate::framer::{
    is_terminator, is_terminator_line, lines_of, response_lines, unescape, unescape_line,
    until_terminator,
};
use crate::locator::{has_line_break, Locator};

verus! {

/// What can go wrong while fetching a directory or a text file.
#[derive(Clone, Debug)]
pub enum FetchError {
    /// The connection could not be opened; the text says why.
    Connection(String),
    /// Writing the request or reading the response failed; the text says why.
    Io(String),
    /// A directory line could not be read.
    Parse(ParseError),
}

/// What reading a response produced next.
#[derive(Clone, Debug)]
pub enum ReadEvent {
    /// One line, with its line ending already removed.
    Line(String),
    /// The connection was closed by the server.
    Closed,
    /// Opening, writing or reading failed.
    Failed(FetchError),
}

/// The exact bytes of a request: the locator, then CR LF.
pub fn request_line(locator: &Locator) -> (r: String)
    ensures
        r@ == locator@ + seq!['\r', '\n'],
        !has_line_break(r@.drop_last().drop_last()),
{
    let text = locator.as_str();
    let mut r = String::from_str(text);
    r.append("\r\n");
    proof {
        reveal_strlit("\r\n");
        assert(r@.drop_last().drop_last() =~= locator@);
    }
    r
}

/// Cuts a stream of read events into the lines of one response, stopping at the
/// terminator line, at the end of the stream, or after handing out a failure.
#[derive(Debug)]
pub struct LineFramer {
    finished: bool,
}

impl View for LineFramer {
    type V = bool;

    /// Whether the response is over.
    closed spec fn view(&self) -> bool {
        self.finished
    }
}

impl LineFramer {
    pub fn new() -> (r: LineFramer)
        ensures
            !r@,
    {
        LineFramer { finished: false }
    }

    pub fn is_finished(&self) -> (r: bool)
        ensures
            r == self@,
    {
        self.finished
    }

    /// Takes the next read event and says what the response yields for it, if anything.
    pub fn next(&mut self, event: ReadEvent) -> (r: Option<Result<String, FetchError>>)
        ensures
            old(self)@ ==> r is None && final(self)@,
            !old(self)@ ==> match event {
                ReadEvent::Line(l) => if is_terminator(l@) {
                    r is None && final(self)@
                } else {
                    r == Some(Ok::<String, FetchError>(l)) && !final(self)@
                },
                ReadEvent::Closed => r is None && final(self)@,
                ReadEvent::Failed(e) => r == Some(Err::<String, FetchError>(e)) && final(self)@,
            },
    {
        if self.finished {
            return None;
        }
        match event {
            ReadEvent::Line(l) => {
                if is_terminator_line(l.as_str()) {
                    self.finished = true;
                    None
                } else {
                    Some(Ok(l))
                }
            },
            ReadEvent::Closed => {
                self.finished = true;
                None
            },
            ReadEvent::Failed(e) => {
                self.finished = true;
                Some(Err(e))
            },
        }
    }
}

/// `r` hands out an entry that `line` describes.
pub open spec fn yields_entry(r: Option<Result<Entry, FetchError>>, line: Seq<char>) -> bool {
    match r {
        Some(Ok(e)) => describes(e, line),
        _ => false,
    }
}

/// Turns the read events of a directory response into entries. The sequence ends at
/// the terminator line or the end of the stream; a failure, or a line that does not
/// parse, is handed out as the last element.
#[derive(Debug)]
pub struct DirectoryReader {
    framer: LineFramer,
}

impl View for DirectoryReader {
    type V = bool;

    /// Whether the sequence of entries is over.
    closed spec fn view(&self) -> bool {
        self.framer@
    }
}

impl DirectoryReader {
    pub fn new() -> (r: DirectoryReader)
        ensures
            !r@,
    {
        DirectoryReader { framer: LineFramer::new() }
    }

    pub fn is_finished(&self) -> (r: bool)
        ensures
            r == self@,
    {
        self.framer.is_finished()
    }

    /// Takes the next read event and says which element of the sequence it gives, if any.
    pub fn next(&mut self, event: ReadEvent) -> (r: Option<Result<Entry, FetchError>>)
        ensures
            old(self)@ ==> r is None && final(self)@,
            !old(self)@ ==> match event {
                ReadEvent::Line(l) => if is_terminator(l@) {
                    r is None && final(self)@
                } else {
                    match entry_outcome(l@) {
                        Ok(_) => yields_entry(r, l@) && !final(self)@,
                        Err(pe) => r == Some(Err::<Entry, FetchError>(FetchError::Parse(pe)))
                            && final(self)@,
                    }
                },
                ReadEvent::Closed => r is None && final(self)@,
                ReadEvent::Failed(e) => r == Some(Err::<Entry, FetchError>(e)) && final(self)@,
            },
    {
        match self.framer.next(event) {
            None => None,
            Some(Err(e)) => Some(Err(e)),
            Some(Ok(line)) => match Entry::parse(line.as_str()) {
                Ok(e) => Some(Ok(e)),
                Err(pe) => {
                    self.framer = LineFramer { finished: true };
                    Some(Err(FetchError::Parse(pe)))
                },
            },
        }
    }
}

/// Collects the lines of a text response, unescaped, until it ends or fails.
#[derive(Debug)]
pub struct TextReader {
    framer: LineFramer,
    lines: Vec<String>,
    failure: Option<FetchError>,
}

impl TextReader {
    /// Whether the response is over.
    pub closed spec fn finished(&self) -> bool {
        self.framer@
    }

    /// The unescaped lines collected so far.
    pub closed spec fn collected(&self) -> Seq<Seq<char>> {
        views_of(self.lines@)
    }

    /// The failure that ended the response, if one did.
    pub closed spec fn failure(&self) -> Option<FetchError> {
        self.failure
    }

    pub fn new() -> (r: TextReader)
        ensures
            !r.finished(),
            r.collected() == Seq::<Seq<char>>::empty(),
            r.failure() is None,
    {
        let r = TextReader { framer: LineFramer::new(), lines: Vec::new(), failure: None };
        assert(views_of(r.lines@) =~= Seq::<Seq<char>>::empty());
        r
    }

    /// Takes the next read event; returns whether the response is now over.
    pub fn feed(&mut self, event: ReadEvent) -> (done: bool)
        ensures
            done == final(self).finished(),
            old(self).finished() ==> final(self).finished() && final(self).collected()
                == old(self).collected() && final(self).failure() == old(self).failure(),
            !old(self).finished() ==> match event {
                ReadEvent::Line(l) => if is_terminator(l@) {
                    final(self).finished() && final(self).collected() == old(self).collected()
                        && final(self).failure() == old(self).failure()
                } else {
                    !final(self).finished() && final(self).collected() == old(
                        self,
                    ).collected().push(unescape(l@)) && final(self).failure() == old(self).failure()
                },
                ReadEvent::Closed => final(self).finished() && final(self).collected() == old(
                    self,
                ).collected() && final(self).failure() == old(self).failure(),
                ReadEvent::Failed(e) => final(self).finished() && final(self).collected() == old(
                    self,
                ).collected() && final(self).failure() == Some(e),
            },
    {
        match self.framer.next(event) {
            None => {},
            Some(Err(e)) => {
                self.failure = Some(e);
            },
            Some(Ok(line)) => {
                let text = unescape_line(line.as_str());
                let ghost before = self.lines@;
                self.lines.push(text);
                assert(views_of(self.lines@) =~= views_of(before).push(text@));
            },
        }
        self.framer.is_finished()
    }

    /// The result of the whole response: its lines, or the failure that ended it.
    pub fn finish(self) -> (r: Result<Vec<String>, FetchError>)
        ensures
            match self.failure() {
                Some(e) => r == Err::<Vec<String>, FetchError>(e),
                None => r matches Ok(v) && views_of(v@) == self.collected(),
            },
    {
        match self.failure {
            Some(e) => Err(e),
            None => Ok(self.lines),
        }
    }
}

/// What reading each line of a directory gives, up to and including the first line
/// that does not parse.
pub open spec fn directory_outcomes(lines: Seq<Seq<char>>) -> Seq<Result<(), ParseError>>
    decreases lines.len(),
{
    if lines.len() == 0 {
        Seq::empty()
    } else if entry_outcome(lines[0]) is Err {
        seq![entry_outcome(lines[0])]
    } else {
        seq![entry_outcome(lines[0])] + directory_outcomes(lines.drop_first())
    }
}

/// Each line before `k` that parses gives one element of the directory; the first
/// line that fails, if there is one, gives the last.
pub proof fn lemma_directory_prefix(lines: Seq<Seq<char>>, k: int)
    requires
        0 <= k <= lines.len(),
        forall|j: int| 0 <= j < k ==> #[trigger] entry_outcome(lines[j]) is Ok,
    ensures
        directory_outcomes(lines).len() >= k,
        forall|j: int| 0 <= j < k ==> #[trigger] directory_outcomes(lines)[j] == entry_outcome(lines[j]),
        k == lines.len() ==> directory_outcomes(lines).len() == k,
        k < lines.len() ==> directory_outcomes(lines).len() > k && directory_outcomes(lines)[k]
            == entry_outcome(lines[k]),
        k < lines.len() && entry_outcome(lines[k]) is Err ==> directory_outcomes(lines).len() == k + 1,
    decreases k,
{
    if k > 0 {
        let rest = lines.drop_first();
        assert forall|j: int| 0 <= j < k - 1 implies #[trigger] entry_outcome(rest[j]) is Ok by {
            assert(rest[j] == lines[j + 1]);
            assert(entry_outcome(lines[j + 1]) is Ok);
        }
        assert(entry_outcome(lines[0]) is Ok);
        lemma_directory_prefix(rest, k - 1);
        assert forall|j: int| 0 <= j < k implies #[trigger] directory_outcomes(lines)[j]
            == entry_outcome(lines[j]) by {
            if j > 0 {
                assert(directory_outcomes(lines)[j] == directory_outcomes(rest)[j - 1]);
                assert(rest[j - 1] == lines[j]);
            }
        }
        if k < lines.len() {
            assert(rest[k - 1] == lines[k]);
        }
    }
}

/// A directory ends right after its first line that does not parse: the lines
/// before it each give an entry, it gives one error, and nothing follows.
pub proof fn lemma_directory_stops_at_first_error(lines: Seq<Seq<char>>, k: int)
    requires
        0 <= k < lines.len(),
        forall|j: int| 0 <= j < k ==> #[trigger] entry_outcome(lines[j]) is Ok,
        entry_outcome(lines[k]) is Err,
    ensures
        directory_outcomes(lines).len() == k + 1,
        forall|j: int| 0 <= j < k ==> #[trigger] directory_outcomes(lines)[j] is Ok,
        directory_outcomes(lines)[k] == entry_outcome(lines[k]),
{
    lemma_directory_prefix(lines, k);
    assert forall|j: int| 0 <= j < k implies #[trigger] directory_outcomes(lines)[j] is Ok by {
        assert(entry_outcome(lines[j]) is Ok);
    }
}

/// Element `r` of a directory read from `line` agrees with `outcome`.
pub open spec fn agrees(r: Result<Entry, ParseError>, outcome: Result<(), ParseError>, line: Seq<char>) -> bool {
    match r {
        Ok(e) => outcome is Ok && describes(e, line),
        Err(pe) => outcome == Err::<(), ParseError>(pe),
    }
}

/// The entries of a received directory response, up to its terminator or its end,
/// stopping after the first line that does not parse.
pub fn directory_entries(text: &str) -> (r: Vec<Result<Entry, ParseError>>)
    ensures
        r@.len() == directory_outcomes(until_terminator(lines_of(text@))).len(),
        forall|i: int|
            0 <= i < r@.len() ==> agrees(
                #[trigger] r@[i],
                directory_outcomes(until_terminator(lines_of(text@)))[i],
                until_terminator(lines_of(text@))[i],
            ),
{
    let lines = response_lines(text);
    let ghost u = until_terminator(lines_of(text@));
    let mut out: Vec<Result<Entry, ParseError>> = Vec::new();
    let mut i: usize = 0;
    let mut failed = false;
    while i < lines.len()
        invariant_except_break
            out@.len() == i,
            !failed,
        invariant
            i <= lines.len(),
            views_of(lines@) == u,
            forall|j: int| 0 <= j < i ==> #[trigger] entry_outcome(u[j]) is Ok,
            forall|j: int| 0 <= j < i ==> agrees(#[trigger] out@[j], entry_outcome(u[j]), u[j]),
        ensures
            failed ==> i < u.len() && out@.len() == i + 1 && entry_outcome(u[i as int]) is Err
                && agrees(out@[i as int], entry_outcome(u[i as int]), u[i as int]),
            !failed ==> i == u.len() && out@.len() == i,
            forall|j: int| 0 <= j < i ==> #[trigger] entry_outcome(u[j]) is Ok,
            forall|j: int| 0 <= j < i ==> agrees(#[trigger] out@[j], entry_outcome(u[j]), u[j]),
        decreases lines.len() - i,
    {
        assert(lines@[i as int]@ == u[i as int]);
        let parsed = Entry::parse(lines[i].as_str());
        let bad = parsed.is_err();
        out.push(parsed);
        if bad {
            failed = true;
            break;
        }
        i = i + 1;
    }
    proof {
        lemma_directory_prefix(u, i as int);
    }
    out
}

} // verus!
