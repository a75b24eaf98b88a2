use vstd::prelude::*;
use vstd::utf8::encode_utf8;

verus! {

/// One token of a markdown document, as far as comment removal cares.
///
/// `Other` carries every remaining token kind untouched.
#[derive(Debug, Clone, PartialEq, Eq)]
pub enum Token<T> {
    /// Raw HTML markup of a block: one line of an HTML block.
    Html(String),
    /// Raw HTML markup inside a paragraph.
    InlineHtml(String),
    /// Inline text.
    Text(String),
    /// Any other token.
    Other(T),
}

/// A character of Unicode's White_Space property.
pub open spec fn is_white_space(c: char) -> bool {
    let u = c as u32;
    (0x9 <= u <= 0xd) || u == 0x20 || u == 0x85 || u == 0xa0 || u == 0x1680 || (0x2000 <= u
        <= 0x200a) || u == 0x2028 || u == 0x2029 || u == 0x202f || u == 0x205f || u == 0x3000
}

/// The text without its trailing white space.
pub open spec fn trim_end_of(s: Seq<char>) -> Seq<char>
    decreases s.len(),
{
    if s.len() > 0 && is_white_space(s.last()) {
        trim_end_of(s.drop_last())
    } else {
        s
    }
}

/// Relies on `str::trim_end`: the input without its trailing characters of
/// Unicode's White_Space property.
#[verifier::external_body]
fn trim_end_text(s: &str) -> (r: &str)
    ensures
        r@ == trim_end_of(s@),
{
    s.trim_end()
}

/// The opening marker `<!--`, as bytes.
pub open spec fn open_marker() -> Seq<u8> {
    seq![60u8, 33u8, 45u8, 45u8]
}

/// The opening marker without its `<`: `!--`.
pub open spec fn bang_marker() -> Seq<u8> {
    seq![33u8, 45u8, 45u8]
}

/// The closing marker `-->`, as bytes.
pub open spec fn close_marker() -> Seq<u8> {
    seq![45u8, 45u8, 62u8]
}

pub open spec fn starts_with(b: Seq<u8>, p: Seq<u8>) -> bool {
    p.len() <= b.len() && b.subrange(0, p.len() as int) == p
}

pub open spec fn ends_with(b: Seq<u8>, p: Seq<u8>) -> bool {
    p.len() <= b.len() && b.subrange(b.len() - p.len(), b.len() as int) == p
}

/// The text is exactly `<`.
pub open spec fn is_lone_lt(s: Seq<char>) -> bool {
    encode_utf8(s) == seq![60u8]
}

/// The text, with trailing whitespace removed, ends with `-->`.
pub open spec fn closes_comment(s: Seq<char>) -> bool {
    ends_with(encode_utf8(trim_end_of(s)), close_marker())
}

impl<T> Token<T> {
    /// The payload of an `Html` or `Text` token.
    pub open spec fn payload(&self) -> Seq<char> {
        match self {
            Token::Html(s) => s@,
            Token::InlineHtml(s) => s@,
            Token::Text(s) => s@,
            Token::Other(_) => Seq::empty(),
        }
    }

    /// Raw HTML markup, of a block or inline.
    pub open spec fn is_markup(&self) -> bool {
        self is Html || self is InlineHtml
    }

    /// Inline text that is exactly `<`: the first half of a split opener.
    pub open spec fn is_split_lt(&self) -> bool {
        self is Text && is_lone_lt(self.payload())
    }

    /// Inline text that starts with `!--`: the second half of a split opener.
    pub open spec fn is_split_bang(&self) -> bool {
        self is Text && starts_with(encode_utf8(self.payload()), bang_marker())
    }

    /// Raw HTML markup that starts with `<!--`.
    pub open spec fn is_html_opener(&self) -> bool {
        self.is_markup() && starts_with(encode_utf8(self.payload()), open_marker())
    }

    /// A markup or text token whose trimmed payload ends with `-->`.
    pub open spec fn is_closer(&self) -> bool {
        !(self is Other) && closes_comment(self.payload())
    }

    pub fn split_lt(&self) -> (r: bool)
        ensures
            r == self.is_split_lt(),
    {
        match self {
            Token::Text(s) => {
                let b = s.as_str().as_bytes();
                let r = b.len() == 1 && b[0] == 60u8;
                assert(r ==> b@ =~= seq![60u8]);
                r
            },
            _ => false,
        }
    }

    pub fn split_bang(&self) -> (r: bool)
        ensures
            r == self.is_split_bang(),
    {
        match self {
            Token::Text(s) => {
                let b = s.as_str().as_bytes();
                let r = b.len() >= 3 && b[0] == 33u8 && b[1] == 45u8 && b[2] == 45u8;
                assert(r ==> b@.subrange(0, 3) =~= bang_marker());
                assert(b@.len() >= 3 && b@.subrange(0, 3) == bang_marker() ==> r) by {
                    if b@.len() >= 3 && b@.subrange(0, 3) == bang_marker() {
                        assert(b@[0] == b@.subrange(0, 3)[0]);
                        assert(b@[1] == b@.subrange(0, 3)[1]);
                        assert(b@[2] == b@.subrange(0, 3)[2]);
                    }
                };
                r
            },
            _ => false,
        }
    }

    pub fn html_opener(&self) -> (r: bool)
        ensures
            r == self.is_html_opener(),
    {
        let s = match self {
            Token::Html(s) => s,
            Token::InlineHtml(s) => s,
            _ => {
                return false;
            },
        };
        let b = s.as_str().as_bytes();
        let r = b.len() >= 4 && b[0] == 60u8 && b[1] == 33u8 && b[2] == 45u8 && b[3] == 45u8;
        assert(r ==> b@.subrange(0, 4) =~= open_marker());
        assert(b@.len() >= 4 && b@.subrange(0, 4) == open_marker() ==> r) by {
            if b@.len() >= 4 && b@.subrange(0, 4) == open_marker() {
                assert(b@[0] == b@.subrange(0, 4)[0]);
                assert(b@[1] == b@.subrange(0, 4)[1]);
                assert(b@[2] == b@.subrange(0, 4)[2]);
                assert(b@[3] == b@.subrange(0, 4)[3]);
            }
        };
        r
    }

    /// Whether this is raw HTML markup, of a block or inline.
    pub fn markup(&self) -> (r: bool)
        ensures
            r == self.is_markup(),
    {
        match self {
            Token::Html(_) => true,
            Token::InlineHtml(_) => true,
            _ => false,
        }
    }

    pub fn closer(&self) -> (r: bool)
        ensures
            r == self.is_closer(),
    {
        match self {
            Token::Html(s) => text_closes(s.as_str()),
            Token::InlineHtml(s) => text_closes(s.as_str()),
            Token::Text(s) => text_closes(s.as_str()),
            Token::Other(_) => false,
        }
    }
}

/// Whether `s`, with trailing whitespace removed, ends with `-->`.
pub fn text_closes(s: &str) -> (r: bool)
    ensures
        r == closes_comment(s@),
{
    let t = trim_end_text(s);
    let b = t.as_bytes();
    let n = b.len();
    if n < 3 {
        return false;
    }
    let r = b[n - 3] == 45u8 && b[n - 2] == 45u8 && b[n - 1] == 62u8;
    let ghost tail = b@.subrange(n - 3, n as int);
    assert(r ==> tail =~= close_marker());
    assert(tail == close_marker() ==> r) by {
        if tail == close_marker() {
            assert(b@[n - 3] == tail[0]);
            assert(b@[n - 2] == tail[1]);
            assert(b@[n - 1] == tail[2]);
        }
    };
    r
}

} // verus!
