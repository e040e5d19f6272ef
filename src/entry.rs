use vstd::prelude::*;

use crate::chars::{chars_of, split_chars, split_on, string_from, views_of};
use crate::locator::{has_line_break, Locator, ValidationError};

verus! {

/// Why a directory line could not be read as an entry.
#[derive(Clone, Copy, Debug, PartialEq, Eq, Structural)]
pub enum ParseError {
    /// The line was empty.
    Empty,
    /// The line ended before label, locator, host and port were all given.
    TruncatedEntry,
    /// The port field is not a decimal number from 0 to 65535.
    InvalidPort,
    /// The locator field held CR or LF.
    InvalidLocator(ValidationError),
}

/// One line of a directory listing.
#[derive(Clone, Debug)]
pub struct Entry {
    pub kind: char,
    pub label: String,
    pub locator: Locator,
    pub host: String,
    pub port: u16,
    pub other: Vec<String>,
}

pub open spec fn is_digit(c: char) -> bool {
    '0' <= c <= '9'
}

pub open spec fn digit_value(c: char) -> nat {
    (c as int - '0' as int) as nat
}

/// The number written by the decimal digits `s`.
pub open spec fn digits_value(s: Seq<char>) -> nat
    decreases s.len(),
{
    if s.len() == 0 {
        0
    } else {
        digits_value(s.drop_last()) * 10 + digit_value(s.last())
    }
}

/// `s` without one leading `+`, if it has one.
pub open spec fn unsigned_digits(s: Seq<char>) -> Seq<char> {
    if s.len() > 0 && s[0] == '+' {
        s.drop_first()
    } else {
        s
    }
}

pub open spec fn all_digits(d: Seq<char>) -> bool {
    forall|i: int| 0 <= i < d.len() ==> is_digit(#[trigger] d[i])
}

/// The port that `s` writes: an optional `+`, then one or more decimal digits
/// whose value is at most 65535 (leading zeros allowed).
pub open spec fn port_number(s: Seq<char>) -> Option<u16> {
    let d = unsigned_digits(s);
    if d.len() > 0 && all_digits(d) && digits_value(d) <= 65535 {
        Some(digits_value(d) as u16)
    } else {
        None
    }
}

/// The tab-separated fields that follow the kind character of `line`.
pub open spec fn entry_fields(line: Seq<char>) -> Seq<Seq<char>> {
    split_on(line.drop_first(), '\t')
}

/// Whether `line` reads as an entry, and if not, which error it gives.
/// Fields are checked in order: label, locator, host, port.
pub open spec fn entry_outcome(line: Seq<char>) -> Result<(), ParseError> {
    if line.len() == 0 {
        Err(ParseError::Empty)
    } else {
        let f = entry_fields(line);
        if f.len() < 2 {
            Err(ParseError::TruncatedEntry)
        } else if has_line_break(f[1]) {
            Err(ParseError::InvalidLocator(ValidationError))
        } else if f.len() < 4 {
            Err(ParseError::TruncatedEntry)
        } else if port_number(f[3]) is None {
            Err(ParseError::InvalidPort)
        } else {
            Ok(())
        }
    }
}

/// `e` holds what the well-formed directory line `line` says.
pub open spec fn describes(e: Entry, line: Seq<char>) -> bool {
    let f = entry_fields(line);
    &&& e.kind == line[0]
    &&& e.label@ == f[0]
    &&& e.locator@ == f[1]
    &&& e.host@ == f[2]
    &&& port_number(f[3]) == Some(e.port)
    &&& views_of(e.other@) == f.subrange(4, f.len() as int)
}

impl Entry {
    /// Reads one directory line: the kind character, then label, locator, host and
    /// port separated by tabs, then any further tab-separated fields kept verbatim.
    pub fn parse(line: &str) -> (r: Result<Entry, ParseError>)
        ensures
            match r {
                Ok(e) => entry_outcome(line@) is Ok && describes(e, line@),
                Err(err) => entry_outcome(line@) == Err::<(), ParseError>(err),
            },
    {
        let cs = chars_of(line);
        if cs.len() == 0 {
            return Err(ParseError::Empty);
        }
        let kind = cs[0];
        let fields = split_chars(&cs, 1, '\t');
        let ghost f = entry_fields(line@);
        proof {
            assert(cs@.subrange(1, cs@.len() as int) =~= line@.drop_first());
            assert(views_of(fields@) == f);
            assert(fields@.len() == f.len());
        }
        if fields.len() < 2 {
            return Err(ParseError::TruncatedEntry);
        }
        assert(fields@[1]@ == f[1]);
        let locator = match Locator::parse(fields[1].as_str()) {
            Ok(l) => l,
            Err(e) => {
                return Err(ParseError::InvalidLocator(e));
            },
        };
        if fields.len() < 4 {
            return Err(ParseError::TruncatedEntry);
        }
        assert(fields@[3]@ == f[3]);
        let port = match parse_port(fields[3].as_str()) {
            Some(p) => p,
            None => {
                return Err(ParseError::InvalidPort);
            },
        };
        let mut other: Vec<String> = Vec::new();
        let mut i: usize = 4;
        while i < fields.len()
            invariant
                4 <= i <= fields.len(),
                views_of(fields@) == f,
                views_of(other@) == f.subrange(4, i as int),
            decreases fields.len() - i,
        {
            assert(fields@[i as int]@ == f[i as int]);
            let item = fields[i].clone();
            let ghost before = other@;
            other.push(item);
            assert(other@ == before.push(item));
            assert(views_of(other@) =~= views_of(before).push(item@));
            assert(views_of(other@) =~= f.subrange(4, i + 1));
            i = i + 1;
        }
        assert(fields@[0]@ == f[0]);
        assert(fields@[2]@ == f[2]);
        Ok(Entry {
            kind,
            label: fields[0].clone(),
            locator,
            host: fields[2].clone(),
            port,
            other,
        })
    }
}

impl std::str::FromStr for Entry {
    type Err = ParseError;

    fn from_str(line: &str) -> Result<Entry, ParseError> {
        Entry::parse(line)
    }
}

/// Reads a port number: an optional `+` and decimal digits, at most 65535.
pub fn parse_port(s: &str) -> (r: Option<u16>)
    ensures
        r == port_number(s@),
{
    let cs = chars_of(s);
    let start: usize = if cs.len() > 0 && cs[0] == '+' { 1 } else { 0 };
    let ghost d = unsigned_digits(s@);
    assert(d =~= cs@.subrange(start as int, cs.len() as int));
    if start >= cs.len() {
        return None;
    }
    let mut acc: u32 = 0;
    let mut over = false;
    let mut i = start;
    assert(cs@.subrange(start as int, start as int) =~= Seq::<char>::empty());
    while i < cs.len()
        invariant
            start <= i <= cs.len(),
            cs@ == s@,
            d == unsigned_digits(s@),
            d == cs@.subrange(start as int, cs.len() as int),
            forall|j: int| start <= j < i ==> is_digit(#[trigger] cs@[j]),
            !over ==> acc == digits_value(cs@.subrange(start as int, i as int)) && acc <= 65535,
            over ==> digits_value(cs@.subrange(start as int, i as int)) > 65535,
        decreases cs.len() - i,
    {
        let c = cs[i];
        if !('0' <= c && c <= '9') {
            assert(d[i - start] == c);
            assert(!is_digit(d[i - start]));
            return None;
        }
        let dv: u32 = (c as u32) - ('0' as u32);
        let ghost ext = cs@.subrange(start as int, i + 1);
        assert(ext.drop_last() =~= cs@.subrange(start as int, i as int));
        assert(ext.last() == c);
        assert(digits_value(ext) == digits_value(cs@.subrange(start as int, i as int)) * 10 + dv);
        if !over {
            let n: u32 = acc * 10 + dv;
            if n > 65535 {
                over = true;
            } else {
                acc = n;
            }
        }
        i = i + 1;
    }
    assert(cs@.subrange(start as int, i as int) == d);
    assert forall|j: int| 0 <= j < d.len() implies #[trigger] is_digit(d[j]) by {
        assert(d[j] == cs@[j + start]);
    }
    if over {
        None
    } else {
        Some(acc as u16)
    }
}

} // verus!
