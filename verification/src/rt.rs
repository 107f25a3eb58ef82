//! Advisory error detail, and what a caught panic leaves behind.
//!
//! The status code is the contract; the text recorded here is for logs and
//! debuggers. Each thread has its own record.

use vstd::prelude::*;
use vstd::string::*;

verus! {

/// What is recorded for a message that cannot be handed out whole, because a
/// NUL inside would cut it short.
pub const INTERIOR_NUL: &'static str = "error message contained an interior NUL";

/// What stands for the text of a panic that carries none.
pub const NO_PANIC_TEXT: &'static str = "panic with a non-string payload";

/// What is recorded for `msg`.
pub open spec fn recorded(msg: Seq<char>) -> Seq<char> {
    if msg.contains('\0') {
        INTERIOR_NUL@
    } else {
        msg
    }
}

/// Whether a character of `msg` is NUL.
fn has_nul(msg: &str) -> (r: bool)
    ensures
        r == msg@.contains('\0'),
{
    let n = msg.unicode_len();
    let mut i: usize = 0;
    while i < n
        invariant
            n == msg@.len(),
            i <= n,
            forall|j: int| 0 <= j < i ==> msg@[j] != '\0',
        decreases n - i,
    {
        if msg.get_char(i) == '\0' {
            assert(msg@[i as int] == '\0');
            return true;
        }
        i = i + 1;
    }
    false
}

/// The detail of a thread's most recent failure.
pub struct LastError {
    pub last: Option<String>,
}

impl View for LastError {
    type V = Option<Seq<char>>;

    open spec fn view(&self) -> Option<Seq<char>> {
        match self.last {
            Some(s) => Some(s@),
            None => None,
        }
    }
}

impl LastError {
    /// Nothing has failed yet.
    pub fn new() -> (r: LastError)
        ensures
            r@ == None::<Seq<char>>,
    {
        LastError { last: None }
    }

    /// Records the detail of a failure.
    pub fn set(&mut self, msg: &str)
        ensures
            final(self)@ == Some(recorded(msg@)),
    {
        if has_nul(msg) {
            self.last = Some(INTERIOR_NUL.to_owned());
        } else {
            self.last = Some(msg.to_owned());
        }
    }

    /// The detail of the last failure, none if nothing has failed.
    pub fn last(&self) -> (r: Option<&str>)
        ensures
            match r {
                Some(s) => self@ == Some(s@),
                None => self@ is None,
            },
    {
        match &self.last {
            Some(s) => Some(s.as_str()),
            None => None,
        }
    }
}

/// A decimal digit.
pub open spec fn digit_text(d: nat) -> Seq<char> {
    if d == 0 {
        "0"@
    } else if d == 1 {
        "1"@
    } else if d == 2 {
        "2"@
    } else if d == 3 {
        "3"@
    } else if d == 4 {
        "4"@
    } else if d == 5 {
        "5"@
    } else if d == 6 {
        "6"@
    } else if d == 7 {
        "7"@
    } else if d == 8 {
        "8"@
    } else {
        "9"@
    }
}

/// A number in decimal.
pub open spec fn decimal_text(n: nat) -> Seq<char>
    decreases n,
{
    if n < 10 {
        digit_text(n)
    } else {
        decimal_text(n / 10) + digit_text(n % 10)
    }
}

/// The digit `d`.
fn digit(d: u32) -> (r: &'static str)
    requires
        d < 10,
    ensures
        r@ == digit_text(d as nat),
{
    match d {
        0 => "0",
        1 => "1",
        2 => "2",
        3 => "3",
        4 => "4",
        5 => "5",
        6 => "6",
        7 => "7",
        8 => "8",
        _ => "9",
    }
}

/// The number `n` in decimal.
pub(crate) fn decimal(n: u32) -> (r: String)
    ensures
        r@ == decimal_text(n as nat),
    decreases n,
{
    if n < 10 {
        digit(n).to_owned()
    } else {
        let mut s = decimal(n / 10);
        s.append(digit(n % 10));
        s
    }
}

/// The record of a panic with this text, at this place.
pub open spec fn panic_text(place: Option<(Seq<char>, u32)>, text: Option<Seq<char>>) -> Seq<char> {
    let shown = match text {
        Some(t) => t,
        None => NO_PANIC_TEXT@,
    };
    match place {
        Some((file, line)) => "panic at "@ + file + ":"@ + decimal_text(line as nat) + ": "@
            + shown,
        None => "panic: "@ + shown,
    }
}

/// Writes the record of a panic.
pub fn panic_message(place: Option<(&str, u32)>, text: Option<&str>) -> (r: String)
    ensures
        r@ == panic_text(
            match place {
                Some((file, line)) => Some((file@, line)),
                None => None,
            },
            match text {
                Some(t) => Some(t@),
                None => None,
            },
        ),
{
    let shown = match text {
        Some(t) => t,
        None => NO_PANIC_TEXT,
    };
    match place {
        Some((file, line)) => {
            let mut s = "panic at ".to_owned();
            s.append(file);
            s.append(":");
            s.append(decimal(line).as_str());
            s.append(": ");
            s.append(shown);
            s
        },
        None => {
            let mut s = "panic: ".to_owned();
            s.append(shown);
            s
        },
    }
}

/// The quiet panic hook of one module.
#[derive(Debug, Clone, Copy, PartialEq, Eq, Structural)]
pub struct Hook {
    pub installed: bool,
    /// Whether a panic also goes to the hook that was there before.
    pub verbose: bool,
}

impl Hook {
    /// No hook yet.
    pub fn new() -> (r: Hook)
        ensures
            r == (Hook { installed: false, verbose: false }),
    {
        Hook { installed: false, verbose: false }
    }

    /// Installs the hook on the first call only, and says whether this was
    /// the one. `verbose` is looked at then and never again.
    pub fn install_hook(&mut self, verbose: bool) -> (r: bool)
        ensures
            r == !old(self).installed,
            *final(self) == if old(self).installed {
                *old(self)
            } else {
                Hook { installed: true, verbose }
            },
    {
        if self.installed {
            return false;
        }
        self.installed = true;
        self.verbose = verbose;
        true
    }

    /// What the hook does with a panic: records it, and says whether the
    /// earlier hook is to run too.
    pub fn on_panic(
        &self,
        err: &mut LastError,
        place: Option<(&str, u32)>,
        text: Option<&str>,
    ) -> (r: bool)
        ensures
            r == self.verbose,
            final(err)@ == Some(
                recorded(
                    panic_text(
                        match place {
                            Some((file, line)) => Some((file@, line)),
                            None => None,
                        },
                        match text {
                            Some(t) => Some(t@),
                            None => None,
                        },
                    ),
                ),
            ),
    {
        err.set(panic_message(place, text).as_str());
        self.verbose
    }
}

/// What is handed out never holds a NUL, and a message without one is handed
/// out as it is.
pub proof fn law_recorded_text_is_whole(msg: Seq<char>)
    ensures
        !recorded(msg).contains('\0'),
        !msg.contains('\0') ==> recorded(msg) == msg,
{
    reveal_strlit("error message contained an interior NUL");
    assert forall|i: int| 0 <= i < INTERIOR_NUL@.len() implies INTERIOR_NUL@[i] != '\0' by {}
}

/// The value of a decimal digit; ten for any other character.
pub open spec fn digit_value(c: char) -> int {
    if '0' <= c <= '9' {
        c as int - '0' as int
    } else {
        10
    }
}

/// The number that a text of decimal digits is read as.
pub open spec fn number_read(s: Seq<char>) -> int
    decreases s.len(),
{
    if s.len() == 0 {
        0
    } else {
        number_read(s.drop_last()) * 10 + digit_value(s.last())
    }
}

/// A digit is one character, and is read as what it stands for.
proof fn lemma_digit(d: nat)
    requires
        d < 10,
    ensures
        digit_text(d).len() == 1,
        digit_value(digit_text(d)[0]) == d,
        digit_text(d)[0] == '0' <==> d == 0,
{
    reveal_strlit("0");
    reveal_strlit("1");
    reveal_strlit("2");
    reveal_strlit("3");
    reveal_strlit("4");
    reveal_strlit("5");
    reveal_strlit("6");
    reveal_strlit("7");
    reveal_strlit("8");
    reveal_strlit("9");
}

/// A number in decimal is read as that number, has only digits, and no
/// needless zero in front.
pub proof fn law_decimal_reads_back(n: nat)
    ensures
        number_read(decimal_text(n)) == n,
        decimal_text(n).len() > 0,
        forall|i: int|
            0 <= i < decimal_text(n).len() ==> digit_value(#[trigger] decimal_text(n)[i]) < 10,
        n > 0 ==> decimal_text(n)[0] != '0',
    decreases n,
{
    let s = decimal_text(n);
    if n < 10 {
        lemma_digit(n);
        assert(s.drop_last() =~= Seq::<char>::empty());
        reveal_with_fuel(number_read, 2);
    } else {
        law_decimal_reads_back(n / 10);
        lemma_digit(n % 10);
        assert(s.drop_last() =~= decimal_text(n / 10));
        assert(s.last() == digit_text(n % 10)[0]);
        assert forall|i: int| 0 <= i < s.len() implies digit_value(#[trigger] s[i]) < 10 by {
            if i < s.len() - 1 {
                assert(s[i] == decimal_text(n / 10)[i]);
            }
        }
        assert(s[0] == decimal_text(n / 10)[0]);
    }
}

/// The record of a panic names the file and the line where it happened, and
/// ends with its text, or with words that stand for one.
pub proof fn law_panic_record(file: Seq<char>, line: u32, text: Seq<char>)
    ensures
        panic_text(Some((file, line)), Some(text)) == "panic at "@ + file + ":"@ + decimal_text(
            line as nat,
        ) + ": "@ + text,
        panic_text(None, Some(text)) == "panic: "@ + text,
        panic_text(Some((file, line)), None) == panic_text(
            Some((file, line)),
            Some("panic with a non-string payload"@),
        ),
        panic_text(None, None) == panic_text(None, Some("panic with a non-string payload"@)),
        recorded(text) == if text.contains('\0') {
            "error message contained an interior NUL"@
        } else {
            text
        },
{
}

} // verus!
