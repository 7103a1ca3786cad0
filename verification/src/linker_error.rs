use vstd::prelude::*;
use vstd::string::*;

verus! {

/// The digits of the number bases up to 16.
pub open spec fn digits() -> Seq<char> {
    "0123456789ABCDEF"@
}

/// `n` without its last digit, in base 16 or 10.
pub open spec fn shifted(n: nat, hex: bool) -> nat {
    if hex {
        n / 16
    } else {
        n / 10
    }
}

/// The value of the last digit of `n`, in base 16 or 10.
pub open spec fn last_digit(n: nat, hex: bool) -> nat {
    if hex {
        n % 16
    } else {
        n % 10
    }
}

/// `n` written in base 16 or 10, with zeros in front where it has fewer
/// than `width` digits.
pub open spec fn number_text(n: nat, hex: bool, width: nat) -> Seq<char>
    decreases n, width,
{
    if shifted(n, hex) == 0 && width <= 1 {
        seq![digits()[last_digit(n, hex) as int]]
    } else {
        number_text(
            shifted(n, hex),
            hex,
            if width > 0 {
                (width - 1) as nat
            } else {
                0
            },
        ).push(digits()[last_digit(n, hex) as int])
    }
}

/// Appends `n`, written in base 16 or 10 with at least `width` digits.
pub fn append_number(text: &mut String, n: usize, hex: bool, width: usize)
    ensures
        final(text)@ == old(text)@ + number_text(n as nat, hex, width as nat),
    decreases n, width,
{
    let rest = if hex {
        n / 16
    } else {
        n / 10
    };
    let last = if hex {
        n % 16
    } else {
        n % 10
    };
    if !(rest == 0 && width <= 1) {
        append_number(text, rest, hex, if width > 0 {
            width - 1
        } else {
            0
        });
    }
    let all = "0123456789ABCDEF";
    proof {
        reveal_strlit("0123456789ABCDEF");
        assert(vstd::utf8::is_ascii_chars(all@)) by {
            assert forall|i: int| 0 <= i < all@.len() implies (all@[i] as nat) < 128 by {}
        }
    }
    let digit = all.substring_ascii(last, last + 1);
    proof {
        assert(digit@ =~= seq![digits()[last as int]]);
    }
    let ghost before = text@;
    text.append(digit);
    proof {
        if rest == 0 && width <= 1 {
            assert(text@ =~= old(text)@ + number_text(n as nat, hex, width as nat));
        } else {
            let w = if width > 0 {
                (width - 1) as nat
            } else {
                0
            };
            assert(before == old(text)@ + number_text(rest as nat, hex, w));
            assert(text@ =~= old(text)@ + number_text(n as nat, hex, width as nat));
        }
    }
}

/// A text in the making: the text of an error, put together of words and
/// of numbers.
pub struct Message {
    text: String,
}

impl Message {
    /// The text so far.
    pub closed spec fn text(&self) -> Seq<char> {
        self.text@
    }

    /// A text that starts with `start`.
    pub fn new(start: &str) -> (m: Message)
        ensures
            m.text() == start@,
    {
        Message { text: start.to_owned() }
    }

    /// The text with `more` after it.
    pub fn str(self, more: &str) -> (m: Message)
        ensures
            m.text() == self.text() + more@,
    {
        let mut text = self.text;
        text.append(more);
        Message { text }
    }

    /// The text with `n` after it, in decimal.
    pub fn dec(self, n: usize) -> (m: Message)
        ensures
            m.text() == self.text() + number_text(n as nat, false, 1),
    {
        let mut text = self.text;
        append_number(&mut text, n, false, 1);
        Message { text }
    }

    /// The text with `n` after it, in hexadecimal with at least `width`
    /// digits.
    pub fn hex(self, n: usize, width: usize) -> (m: Message)
        ensures
            m.text() == self.text() + number_text(n as nat, true, width as nat),
    {
        let mut text = self.text;
        append_number(&mut text, n, true, width);
        Message { text }
    }

    /// The text with the text of the error `inner` after it.
    pub fn cause(self, inner: &LinkerError) -> (m: Message)
        ensures
            m.text() == self.text() + inner.message(),
    {
        let mut text = self.text;
        text.append(inner.what.as_str());
        Message { text }
    }

    /// The error that carries the text.
    pub fn error(self) -> (e: LinkerError)
        ensures
            e.message() == self.text(),
    {
        LinkerError { what: self.text }
    }
}

/// The text of an error that was met in module `name` at `offset`: the
/// pass, the name, the module's own name where it has one, the offset as at
/// least five hexadecimal digits, and the text of the error itself.
pub open spec fn located_text(
    pass: Seq<char>,
    name: Seq<char>,
    modname: Seq<char>,
    offset: nat,
    inner: Seq<char>,
) -> Seq<char> {
    pass + ": module "@ + name + (if modname.len() == 0 {
        Seq::empty()
    } else {
        " (module "@ + modname + ")"@
    }) + " at "@ + number_text(offset, true, 5) + "H: "@ + inner
}

/// The single error kind of the linker: a message describing what went wrong.
#[derive(Debug)]
pub struct LinkerError {
    what: String,
}

impl LinkerError {
    /// The text carried by the error.
    pub closed spec fn message(&self) -> Seq<char> {
        self.what@
    }

    pub fn new(what: &str) -> (e: LinkerError)
        ensures
            e.message() == what@,
    {
        LinkerError { what: what.to_owned() }
    }

    /// An error whose text is `context` followed by the text of `inner`.
    pub fn with_context(context: &str, inner: &LinkerError) -> (e: LinkerError)
        ensures
            e.message() == context@ + inner.message(),
    {
        let mut what = context.to_owned();
        what.append(inner.what.as_str());
        LinkerError { what }
    }

    /// An error whose text is `what` followed by `detail`.
    pub fn with_detail(what: &str, detail: &str) -> (e: LinkerError)
        ensures
            e.message() == what@ + detail@,
    {
        let mut text = what.to_owned();
        text.append(detail);
        LinkerError { what: text }
    }

    /// The error `inner`, with the place at which it was met.
    pub fn located(pass: &str, name: &str, modname: &str, offset: usize, inner: &LinkerError) -> (e:
        LinkerError)
        ensures
            e.message() == located_text(pass@, name@, modname@, offset as nat, inner.message()),
    {
        let mut what = pass.to_owned();
        what.append(": module ");
        what.append(name);
        if !modname.is_empty() {
            what.append(" (module ");
            what.append(modname);
            what.append(")");
        } else {
            assert(what@ + Seq::<char>::empty() =~= what@);
        }
        what.append(" at ");
        append_number(&mut what, offset, true, 5);
        what.append("H: ");
        what.append(inner.what.as_str());
        LinkerError { what }
    }

    /// An error whose text is `count`, in decimal, followed by `what`.
    pub fn counted(count: usize, what: &str) -> (e: LinkerError)
        ensures
            e.message() == number_text(count as nat, false, 1) + what@,
    {
        let mut text = String::new();
        append_number(&mut text, count, false, 1);
        text.append(what);
        assert(text@ =~= number_text(count as nat, false, 1) + what@);
        LinkerError { what: text }
    }

    pub fn to_string(&self) -> (s: String)
        ensures
            s@ == self.message(),
    {
        self.what.clone()
    }
}

} // verus!
