use vstd::prelude::*;
use crate::chars::chars_of;

verus! {

/// Whether `c` has the Unicode `White_Space` property, which `char::is_whitespace`
/// reports and `str::trim` cuts: the 25 code points of that property.
pub open spec fn unicode_whitespace(c: char) -> bool {
    ||| ('\u{9}' <= c && c <= '\u{D}')
    ||| c == ' '
    ||| c == '\u{85}'
    ||| c == '\u{A0}'
    ||| c == '\u{1680}'
    ||| ('\u{2000}' <= c && c <= '\u{200A}')
    ||| c == '\u{2028}'
    ||| c == '\u{2029}'
    ||| c == '\u{202F}'
    ||| c == '\u{205F}'
    ||| c == '\u{3000}'
}

/// Whether `c` is alphabetic or numeric in Unicode's sense, as `char::is_alphanumeric` reports it.
pub uninterp spec fn unicode_alphanumeric(c: char) -> bool;

/// Whether `c` has the Unicode `White_Space` property.
pub fn char_is_whitespace(c: char) -> (res: bool)
    ensures
        res == unicode_whitespace(c),
{
    ('\u{9}' <= c && c <= '\u{D}') || c == ' ' || c == '\u{85}' || c == '\u{A0}' || c
        == '\u{1680}' || ('\u{2000}' <= c && c <= '\u{200A}') || c == '\u{2028}' || c
        == '\u{2029}' || c == '\u{202F}' || c == '\u{205F}' || c == '\u{3000}'
}

/// Calls `char::is_alphanumeric`; its result is named `unicode_alphanumeric(c)`.
#[verifier::external_body]
fn char_is_alphanumeric(c: char) -> (res: bool)
    ensures
        res == unicode_alphanumeric(c),
{
    c.is_alphanumeric()
}

/// `s` without its leading whitespace.
pub open spec fn trim_start(s: Seq<char>) -> Seq<char>
    decreases s.len(),
{
    if s.len() > 0 && unicode_whitespace(s[0]) {
        trim_start(s.drop_first())
    } else {
        s
    }
}

/// `s` without its trailing whitespace.
pub open spec fn trim_end(s: Seq<char>) -> Seq<char>
    decreases s.len(),
{
    if s.len() > 0 && unicode_whitespace(s.last()) {
        trim_end(s.drop_last())
    } else {
        s
    }
}

/// `s` without leading and trailing whitespace, as `str::trim` cuts it.
pub open spec fn trim(s: Seq<char>) -> Seq<char> {
    trim_end(trim_start(s))
}

/// Why a name was refused.
#[derive(PartialEq, Eq, Structural, Debug, Clone, Copy)]
pub enum UsernameError {
    /// The name is empty once surrounding whitespace is cut.
    Empty,
    /// The name holds a character that is neither a letter nor a digit.
    NotAlphanumeric,
}

/// The outcome of checking a proposed name `s`.
pub open spec fn spec_check_name(s: Seq<char>) -> Result<(), UsernameError> {
    let t = trim(s);
    if t.len() == 0 {
        Err(UsernameError::Empty)
    } else if exists|i: int| 0 <= i < t.len() && !unicode_alphanumeric(#[trigger] t[i]) {
        Err(UsernameError::NotAlphanumeric)
    } else {
        Ok(())
    }
}

/// A name is accepted exactly when, with surrounding whitespace cut, it is
/// not empty and every character of it is a letter or a digit.
pub proof fn law_accepted_names_are_alphanumeric(s: Seq<char>)
    ensures
        spec_check_name(s) is Ok <==> (trim(s).len() > 0 && forall|i: int|
            0 <= i < trim(s).len() ==> unicode_alphanumeric(#[trigger] trim(s)[i])),
        trim(s).len() == 0 ==> spec_check_name(s) == Err::<(), UsernameError>(UsernameError::Empty),
        trim(s).len() > 0 && (exists|i: int|
            0 <= i < trim(s).len() && !unicode_alphanumeric(#[trigger] trim(s)[i]))
            ==> spec_check_name(s) == Err::<(), UsernameError>(UsernameError::NotAlphanumeric),
{
}

/// The text that explains an error.
pub open spec fn spec_error_text(e: UsernameError) -> Seq<char> {
    match e {
        UsernameError::Empty => "Name should be at least 1 character"@,
        UsernameError::NotAlphanumeric => "Name should contains only alphanumeric characters"@,
    }
}

impl UsernameError {
    /// The text that explains this error.
    pub fn message(&self) -> (res: String)
        ensures
            res@ == spec_error_text(*self),
    {
        match self {
            UsernameError::Empty => String::from_str("Name should be at least 1 character"),
            UsernameError::NotAlphanumeric => String::from_str(
                "Name should contains only alphanumeric characters",
            ),
        }
    }
}

/// Cutting whitespace from the front of `s` leaves `s` from its first
/// non-whitespace character on.
proof fn lemma_trim_start(s: Seq<char>, a: int)
    requires
        0 <= a <= s.len(),
        forall|i: int| 0 <= i < a ==> unicode_whitespace(#[trigger] s[i]),
        a < s.len() ==> !unicode_whitespace(s[a]),
    ensures
        trim_start(s) == s.skip(a),
    decreases a,
{
    if a > 0 {
        let t = s.drop_first();
        assert forall|i: int| 0 <= i < a - 1 implies unicode_whitespace(#[trigger] t[i]) by {
            assert(t[i] == s[i + 1]);
        }
        lemma_trim_start(t, a - 1);
        assert(t.skip(a - 1) =~= s.skip(a));
    } else {
        assert(s.skip(0) =~= s);
    }
}

/// Cutting whitespace from the back of `s` leaves `s` up to its last
/// non-whitespace character.
proof fn lemma_trim_end(s: Seq<char>, b: int)
    requires
        0 <= b <= s.len(),
        forall|i: int| b <= i < s.len() ==> unicode_whitespace(#[trigger] s[i]),
        b > 0 ==> !unicode_whitespace(s[b - 1]),
    ensures
        trim_end(s) == s.take(b),
    decreases s.len() - b,
{
    if b < s.len() {
        let t = s.drop_last();
        assert forall|i: int| b <= i < t.len() implies unicode_whitespace(#[trigger] t[i]) by {
            assert(t[i] == s[i]);
        }
        lemma_trim_end(t, b);
        assert(t.take(b) =~= s.take(b));
    } else {
        assert(s.take(b) =~= s);
    }
}

/// A participant's name: non-empty once whitespace is cut, and made of
/// letters and digits in between.
#[derive(Debug)]
pub struct Username(String);

impl View for Username {
    type V = Seq<char>;

    closed spec fn view(&self) -> Seq<char> {
        self.0@
    }
}

impl Username {
    /// Accepts `input` as a name when, with surrounding whitespace cut, it is
    /// not empty and holds only letters and digits. The name kept is `input`
    /// itself, whitespace included.
    pub fn parse(input: String) -> (res: Result<Username, UsernameError>)
        ensures
            match spec_check_name(input@) {
                Ok(()) => res matches Ok(u) && u@ == input@,
                Err(e) => res == Err::<Username, UsernameError>(e),
            },
    {
        let chars = chars_of(input.as_str());
        let n = chars.len();
        let mut a: usize = 0;
        while a < n && char_is_whitespace(chars[a])
            invariant
                a <= n,
                n == chars@.len(),
                forall|i: int| 0 <= i < a ==> unicode_whitespace(#[trigger] chars@[i]),
            decreases n - a,
        {
            a = a + 1;
        }
        proof {
            lemma_trim_start(chars@, a as int);
        }
        let ghost front = chars@.skip(a as int);
        let mut b: usize = n;
        while b > a && char_is_whitespace(chars[b - 1])
            invariant
                a <= b <= n,
                n == chars@.len(),
                front == chars@.skip(a as int),
                forall|i: int| b <= i < n ==> unicode_whitespace(#[trigger] chars@[i]),
            decreases b - a,
        {
            b = b - 1;
        }
        proof {
            assert forall|i: int| b - a <= i < front.len() implies unicode_whitespace(
                #[trigger] front[i],
            ) by {
                assert(front[i] == chars@[a + i]);
            }
            if b > a {
                assert(front[b - a - 1] == chars@[b - 1]);
            }
            lemma_trim_end(front, b - a);
            assert(trim(input@) == front.take(b - a));
        }
        let ghost t = front.take(b - a);
        if a == b {
            return Err(UsernameError::Empty);
        }
        let mut k: usize = a;
        while k < b
            invariant
                a <= k <= b <= n,
                n == chars@.len(),
                t == chars@.subrange(a as int, b as int),
                t == trim(input@),
                forall|i: int| 0 <= i < k - a ==> unicode_alphanumeric(#[trigger] t[i]),
            decreases b - k,
        {
            if !char_is_alphanumeric(chars[k]) {
                assert(t[k - a] == chars@[k as int]);
                assert(!unicode_alphanumeric(trim(input@)[k - a]));
                return Err(UsernameError::NotAlphanumeric);
            }
            assert(t[k - a] == chars@[k as int]);
            k = k + 1;
        }
        Ok(Username(input))
    }

    /// Whether this name is the same as `other`.
    pub fn same_as(&self, other: &Username) -> (res: bool)
        ensures
            res == (self@ == other@),
    {
        self.0 == other.0
    }

    /// The name as it was given.
    pub fn as_str(&self) -> (res: &str)
        ensures
            res@ == self@,
    {
        self.0.as_str()
    }
}

impl Clone for Username {
    fn clone(&self) -> (res: Self)
        ensures
            res@ == self@,
    {
        Username(self.0.clone())
    }
}

} // verus!
