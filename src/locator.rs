use vstd::prelude::*;

verus! {

/// True when `s` holds a carriage return or a line feed.
pub open spec fn has_line_break(s: Seq<char>) -> bool {
    exists|i: int| 0 <= i < s.len() && (s[i] == '\r' || s[i] == '\n')
}

/// The request text held a carriage return or a line feed.
#[derive(Clone, Copy, Debug, PartialEq, Eq, Structural)]
pub struct ValidationError;

/// A request string that is safe to send on one line: it never holds CR or LF.
#[derive(Debug)]
pub struct Locator {
    text: String,
}

impl View for Locator {
    type V = Seq<char>;

    closed spec fn view(&self) -> Seq<char> {
        self.text@
    }
}

impl Clone for Locator {
    fn clone(&self) -> (r: Locator)
        ensures
            r@ == self@,
    {
        proof {
            use_type_invariant(self);
        }
        Locator { text: self.text.clone() }
    }
}

impl Locator {
    #[verifier::type_invariant]
    spec fn inv(self) -> bool {
        !has_line_break(self.text@)
    }

    /// The empty locator, which names a server's top-level directory.
    pub fn root() -> (r: Locator)
        ensures
            r@ == Seq::<char>::empty(),
    {
        Locator { text: String::new() }
    }

    /// Checks `raw` and keeps it verbatim, or refuses it when it holds CR or LF.
    pub fn parse(raw: &str) -> (r: Result<Locator, ValidationError>)
        ensures
            r is Ok <==> !has_line_break(raw@),
            r matches Ok(l) ==> l@ == raw@,
    {
        if contains_line_break(raw) {
            Err(ValidationError)
        } else {
            Ok(Locator { text: raw.to_owned() })
        }
    }

    /// The request text, exactly as it was given.
    pub fn as_text(&self) -> (r: &str)
        ensures
            r@ == self@,
            !has_line_break(r@),
    {
        self.as_str()
    }

    /// The request text.
    pub fn as_str(&self) -> (r: &str)
        ensures
            r@ == self@,
            !has_line_break(r@),
    {
        proof {
            use_type_invariant(self);
        }
        self.text.as_str()
    }
}

impl std::str::FromStr for Locator {
    type Err = ValidationError;

    fn from_str(raw: &str) -> Result<Locator, ValidationError> {
        Locator::parse(raw)
    }
}

/// Scans `s` for a carriage return or a line feed.
pub fn contains_line_break(s: &str) -> (r: bool)
    ensures
        r == has_line_break(s@),
{
    let mut found = false;
    for c in it: s.chars()
        invariant
            it.seq() == s@,
            found == has_line_break(s@.subrange(0, it.index() as int)),
    {
        let ghost pre = s@.subrange(0, it.index() as int);
        let ghost ext = s@.subrange(0, it.index() + 1);
        assert(ext =~= pre.push(c));
        if c == '\r' || c == '\n' {
            assert(ext[pre.len() as int] == c);
            found = true;
        } else {
            assert(has_line_break(ext) == has_line_break(pre)) by {
                if has_line_break(ext) {
                    let i = choose|i: int| 0 <= i < ext.len() && (ext[i] == '\r' || ext[i] == '\n');
                    assert(pre[i] == ext[i]);
                }
                if has_line_break(pre) {
                    let i = choose|i: int| 0 <= i < pre.len() && (pre[i] == '\r' || pre[i] == '\n');
                    assert(ext[i] == pre[i]);
                }
            }
        }
    }
    assert(s@.subrange(0, s@.len() as int) =~= s@);
    found
}

} // verus!
