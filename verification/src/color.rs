//! Diagnostic presentation helpers: wrapping text in terminal color escape
//! sequences, and underlining the characters of a snippet that belong to an
//! offending section.

use vstd::prelude::*;
use vstd::string::StrSliceExecFns;
use vstd::string::StringExecFns;

use crate::text::push_char;

verus! {

/// The terminal escape sequence that ends a colored span.
pub open spec fn color_reset() -> Seq<char> {
    "\x1b[0m"@
}

/// A terminal color: wrapping puts the color's escape prefix before the text
/// and the reset sequence after it.
pub trait Color {
    /// The escape sequence that starts this color's span.
    spec fn prefix() -> Seq<char>;

    /// The text wrapped in this color's escape sequences.
    fn wrap(s: String) -> (r: String)
        ensures
            r@ == Self::prefix() + s@ + color_reset(),
    ;
}

pub struct ColorRed;

impl Color for ColorRed {
    open spec fn prefix() -> Seq<char> {
        "\x1b[31m"@
    }

    fn wrap(s: String) -> (r: String) {
        String::from_str("\x1b[31m").concat(s.as_str()).concat("\x1b[0m")
    }
}

pub struct ColorGreen;

impl Color for ColorGreen {
    open spec fn prefix() -> Seq<char> {
        "\x1b[32m"@
    }

    fn wrap(s: String) -> (r: String) {
        String::from_str("\x1b[32m").concat(s.as_str()).concat("\x1b[0m")
    }
}

pub struct ColorWhite;

impl Color for ColorWhite {
    open spec fn prefix() -> Seq<char> {
        "\x1b[37m"@
    }

    fn wrap(s: String) -> (r: String) {
        String::from_str("\x1b[37m").concat(s.as_str()).concat("\x1b[0m")
    }
}

pub struct ColorYellow;

impl Color for ColorYellow {
    open spec fn prefix() -> Seq<char> {
        "\x1b[33m"@
    }

    fn wrap(s: String) -> (r: String) {
        String::from_str("\x1b[33m").concat(s.as_str()).concat("\x1b[0m")
    }
}

/// Wraps the text in the escape sequences of the chosen color.
pub fn colorize<T: Color>(s: String) -> (r: String)
    ensures
        r@ == T::prefix() + s@ + color_reset(),
{
    T::wrap(s)
}

/// Whether the character occurs in the sequence.
pub open spec fn appears(s: Seq<char>, c: char) -> bool {
    exists|i: int| 0 <= i < s.len() && s[i] == c
}

/// Whether the character occurs in the string.
fn contains_char(s: &str, c: char) -> (r: bool)
    ensures
        r == appears(s@, c),
{
    let n = s.unicode_len();
    let mut i: usize = 0;
    while i < n
        invariant
            i <= n,
            n as nat == s@.len(),
            forall|j: int| 0 <= j < i ==> s@[j] != c,
        decreases n - i,
    {
        if s.get_char(i) == c {
            return true;
        }
        i = i + 1;
    }
    false
}

/// The underline row for a snippet: a caret under each character of the
/// snippet that occurs in the offending section, a space under each other
/// character.
pub fn underline(code: String, section: String) -> (r: String)
    ensures
        r@.len() == code@.len(),
        forall|i: int|
            0 <= i < code@.len() ==> r@[i] == (if appears(section@, code@[i]) {
                '^'
            } else {
                ' '
            }),
{
    let n = code.as_str().unicode_len();
    let mut row = String::new();
    let mut i: usize = 0;
    while i < n
        invariant
            i <= n,
            n as nat == code@.len(),
            row@.len() == i as nat,
            forall|j: int|
                0 <= j < i ==> row@[j] == (if appears(section@, code@[j]) {
                    '^'
                } else {
                    ' '
                }),
        decreases n - i,
    {
        let c = code.as_str().get_char(i);
        if contains_char(section.as_str(), c) {
            push_char(&mut row, '^');
        } else {
            push_char(&mut row, ' ');
        }
        i = i + 1;
    }
    row
}

} // verus!
