//! Small text routines that the rest of the crate builds names from.

use vstd::prelude::*;

verus! {

/// The character of one decimal digit.
pub open spec fn digit_char(d: int) -> char {
    if d == 0 {
        '0'
    } else if d == 1 {
        '1'
    } else if d == 2 {
        '2'
    } else if d == 3 {
        '3'
    } else if d == 4 {
        '4'
    } else if d == 5 {
        '5'
    } else if d == 6 {
        '6'
    } else if d == 7 {
        '7'
    } else if d == 8 {
        '8'
    } else {
        '9'
    }
}

/// Decimal rendering of a natural number, without leading zeros.
pub open spec fn decimal(n: nat) -> Seq<char>
    decreases n,
{
    if n < 10 {
        seq![digit_char(n as int)]
    } else {
        decimal(n / 10).push(digit_char((n % 10) as int))
    }
}

/// `a` followed by `sep` followed by `b`.
pub open spec fn joined(a: Seq<char>, sep: Seq<char>, b: Seq<char>) -> Seq<char> {
    a + sep + b
}

/// `String::push` of the standard library: appends one character to the end
/// of the text.
#[verifier::external_body]
pub(crate) fn push_char(s: &mut String, c: char)
    ensures
        final(s)@ == old(s)@.push(c),
{
    s.push(c)
}

fn digit_of(d: u64) -> (c: char)
    requires
        d < 10,
    ensures
        c == digit_char(d as int),
{
    if d == 0 {
        '0'
    } else if d == 1 {
        '1'
    } else if d == 2 {
        '2'
    } else if d == 3 {
        '3'
    } else if d == 4 {
        '4'
    } else if d == 5 {
        '5'
    } else if d == 6 {
        '6'
    } else if d == 7 {
        '7'
    } else if d == 8 {
        '8'
    } else {
        '9'
    }
}

/// Appends the decimal rendering of `n` to `out`.
pub fn push_decimal(out: &mut String, n: u64)
    ensures
        final(out)@ == old(out)@ + decimal(n as nat),
    decreases n,
{
    if n >= 10 {
        push_decimal(out, n / 10);
    }
    push_char(out, digit_of(n % 10));
    proof {
        if n >= 10 {
            assert(old(out)@ + decimal((n / 10) as nat).push(digit_char((n % 10) as int))
                =~= (old(out)@ + decimal((n / 10) as nat)).push(digit_char((n % 10) as int)));
        } else {
            assert(old(out)@ + seq![digit_char(n as int)] =~= old(out)@.push(
                digit_char(n as int),
            ));
        }
    }
}

/// The decimal rendering of `n`.
pub fn decimal_string(n: u64) -> (s: String)
    ensures
        s@ == decimal(n as nat),
{
    let mut s = String::new();
    push_decimal(&mut s, n);
    assert(Seq::<char>::empty() + decimal(n as nat) =~= decimal(n as nat));
    s
}

/// `label`, a separator and the decimal rendering of `n`, as one text.
pub fn numbered(label: &str, sep: &str, n: u64) -> (s: String)
    ensures
        s@ == joined(label@, sep@, decimal(n as nat)),
{
    let mut s = String::new();
    s.append(label);
    s.append(sep);
    push_decimal(&mut s, n);
    assert(Seq::<char>::empty() + label@ =~= label@);
    s
}

/// White space as the Unicode standard lists it.
pub open spec fn is_white_space(c: char) -> bool {
    let u = c as u32;
    ||| 0x09 <= u <= 0x0D
    ||| u == 0x20
    ||| u == 0x85
    ||| u == 0xA0
    ||| u == 0x1680
    ||| 0x2000 <= u <= 0x200A
    ||| u == 0x2028
    ||| u == 0x2029
    ||| u == 0x202F
    ||| u == 0x205F
    ||| u == 0x3000
}

/// Every character of `s` is white space.
pub open spec fn blank(s: Seq<char>) -> bool {
    forall|i: int| 0 <= i < s.len() ==> is_white_space(#[trigger] s[i])
}

/// Whether `c` is white space.
pub fn char_is_white_space(c: char) -> (r: bool)
    ensures
        r == is_white_space(c),
{
    let u = c as u32;
    (0x09 <= u && u <= 0x0D) || u == 0x20 || u == 0x85 || u == 0xA0 || u == 0x1680 || (0x2000 <= u
        && u <= 0x200A) || u == 0x2028 || u == 0x2029 || u == 0x202F || u == 0x205F || u == 0x3000
}

/// Whether `s` is empty or white space throughout.
pub fn is_blank(s: &str) -> (r: bool)
    ensures
        r == blank(s@),
{
    broadcast use vstd::string::axiom_spec_iter;

    let mut all: bool = true;
    for c in it: s.chars()
        invariant
            it.seq() == s@,
            all == blank(s@.take(it.index() as int)),
    {
        proof {
            let i = it.index() as int;
            assert(s@.take(i + 1) =~= s@.take(i).push(s@[i]));
            if blank(s@.take(i)) && is_white_space(s@[i]) {
                assert forall|j: int| 0 <= j < i + 1 implies is_white_space(
                    #[trigger] s@.take(i + 1)[j],
                ) by {
                    if j < i {
                        assert(s@.take(i)[j] == s@[j]);
                    }
                }
            } else if !blank(s@.take(i)) {
                let j = choose|j: int| 0 <= j < i && !is_white_space(#[trigger] s@.take(i)[j]);
                assert(s@.take(i + 1)[j] == s@[j]);
            } else {
                assert(s@.take(i + 1)[i] == s@[i]);
            }
        }
        if !char_is_white_space(c) {
            all = false;
        }
    }
    proof {
        assert(s@.take(s@.len() as int) =~= s@);
    }
    all
}

/// The characters of `s`, in order.
pub fn chars_of(s: &str) -> (v: Vec<char>)
    ensures
        v@ == s@,
{
    broadcast use vstd::string::axiom_spec_iter;

    let mut v: Vec<char> = Vec::new();
    for c in it: s.chars()
        invariant
            it.seq() == s@,
            v@ == s@.take(it.index() as int),
    {
        proof {
            assert(s@.take(it.index() + 1) =~= s@.take(it.index() as int).push(s@[it.index() as int]));
        }
        v.push(c);
    }
    proof {
        assert(s@.take(s@.len() as int) =~= s@);
    }
    v
}

/// The text made of the characters `chars[from..to]`.
pub fn text_of_chars(chars: &Vec<char>, from: usize, to: usize) -> (s: String)
    requires
        from <= to <= chars.len(),
    ensures
        s@ == chars@.subrange(from as int, to as int),
{
    let mut s = String::new();
    let mut i: usize = from;
    while i < to
        invariant
            from <= i <= to,
            to <= chars.len(),
            s@ == chars@.subrange(from as int, i as int),
        decreases to - i,
    {
        push_char(&mut s, chars[i]);
        proof {
            assert(chars@.subrange(from as int, i as int + 1) =~= chars@.subrange(
                from as int,
                i as int,
            ).push(chars@[i as int]));
        }
        i += 1;
    }
    s
}

/// The lower-case form of a capital letter of the basic Latin alphabet;
/// any other character itself.
pub open spec fn ascii_lower(c: char) -> char {
    if 0x41 <= c as u32 <= 0x5A {
        ((c as u32 + 32) as u8) as char
    } else {
        c
    }
}

/// `s` with the capital letters of the basic Latin alphabet in lower case.
pub open spec fn lowered(s: Seq<char>) -> Seq<char> {
    s.map_values(|c: char| ascii_lower(c))
}

/// `needle` stands in `hay` at position `i`.
pub open spec fn stands_at(needle: Seq<char>, hay: Seq<char>, i: int) -> bool {
    0 <= i && i + needle.len() <= hay.len() && hay.subrange(i, i + needle.len()) == needle
}

/// `needle` occurs somewhere in `hay`.
pub open spec fn occurs_in(needle: Seq<char>, hay: Seq<char>) -> bool {
    exists|i: int| stands_at(needle, hay, i)
}

/// `needle` occurs in `hay` when capital and small letters of the basic
/// Latin alphabet count as the same.
pub open spec fn occurs_ignoring_case(needle: Seq<char>, hay: Seq<char>) -> bool {
    occurs_in(lowered(needle), lowered(hay))
}

/// The lower-case form of `c`.
pub fn to_ascii_lower(c: char) -> (r: char)
    ensures
        r == ascii_lower(c),
{
    let u = c as u32;
    if 0x41 <= u && u <= 0x5A {
        ((u + 32) as u8) as char
    } else {
        c
    }
}

/// The characters of `s` in lower case.
pub fn lowered_chars(s: &str) -> (v: Vec<char>)
    ensures
        v@ == lowered(s@),
{
    let chars = chars_of(s);
    let mut v: Vec<char> = Vec::new();
    let mut i: usize = 0;
    while i < chars.len()
        invariant
            i <= chars.len(),
            chars@ == s@,
            v@.len() == i,
            forall|j: int| 0 <= j < i ==> v@[j] == ascii_lower(s@[j]),
        decreases chars.len() - i,
    {
        v.push(to_ascii_lower(chars[i]));
        i += 1;
    }
    proof {
        assert(v@ =~= lowered(s@));
    }
    v
}

/// Whether `needle` stands in `hay` at position `at`.
fn matches_at(needle: &Vec<char>, hay: &Vec<char>, at: usize) -> (r: bool)
    requires
        at + needle.len() <= hay.len(),
    ensures
        r == stands_at(needle@, hay@, at as int),
{
    let mut j: usize = 0;
    while j < needle.len()
        invariant
            j <= needle.len(),
            at + needle.len() <= hay.len(),
            forall|k: int| 0 <= k < j ==> hay@[at + k] == needle@[k],
        decreases needle.len() - j,
    {
        if hay[at + j] != needle[j] {
            proof {
                assert(hay@.subrange(at as int, at + needle.len())[j as int] == hay@[at + j]);
            }
            return false;
        }
        j += 1;
    }
    proof {
        assert(hay@.subrange(at as int, at + needle.len()) =~= needle@);
    }
    true
}

/// Whether `needle` occurs in `hay`.
pub fn contains_chars(hay: &Vec<char>, needle: &Vec<char>) -> (r: bool)
    ensures
        r == occurs_in(needle@, hay@),
{
    if needle.len() > hay.len() {
        return false;
    }
    if needle.len() == 0 {
        proof {
            assert(hay@.subrange(0, 0) =~= needle@);
            assert(stands_at(needle@, hay@, 0));
        }
        return true;
    }
    let last = hay.len() - needle.len();
    let mut i: usize = 0;
    while i <= last
        invariant
            i <= last + 1,
            last == hay.len() - needle.len(),
            0 < needle.len() <= hay.len(),
            forall|k: int| 0 <= k < i ==> !stands_at(needle@, hay@, k),
        decreases last + 1 - i,
    {
        if matches_at(needle, hay, i) {
            return true;
        }
        i += 1;
    }
    false
}

/// Whether `needle` occurs in `hay`, ignoring the case of letters of the
/// basic Latin alphabet.
pub fn contains_ignoring_case(hay: &str, needle: &str) -> (r: bool)
    ensures
        r == occurs_ignoring_case(needle@, hay@),
{
    let h = lowered_chars(hay);
    let n = lowered_chars(needle);
    contains_chars(&h, &n)
}

/// Number of white space characters at the beginning of `s`.
pub open spec fn leading_space(s: Seq<char>) -> nat
    decreases s.len(),
{
    if s.len() > 0 && is_white_space(s[0]) {
        1 + leading_space(s.drop_first())
    } else {
        0
    }
}

/// Number of white space characters at the end of `s`.
pub open spec fn trailing_space(s: Seq<char>) -> nat
    decreases s.len(),
{
    if s.len() > 0 && is_white_space(s.last()) {
        1 + trailing_space(s.drop_last())
    } else {
        0
    }
}

/// `s` without the white space at its beginning and at its end.
pub open spec fn trimmed(s: Seq<char>) -> Seq<char> {
    if blank(s) {
        Seq::empty()
    } else {
        s.subrange(leading_space(s) as int, s.len() - trailing_space(s))
    }
}

proof fn lemma_leading_space(s: Seq<char>)
    ensures
        leading_space(s) <= s.len(),
        forall|i: int| 0 <= i < leading_space(s) ==> is_white_space(#[trigger] s[i]),
        leading_space(s) < s.len() ==> !is_white_space(s[leading_space(s) as int]),
    decreases s.len(),
{
    if s.len() > 0 && is_white_space(s[0]) {
        lemma_leading_space(s.drop_first());
        assert forall|i: int| 0 <= i < leading_space(s) implies is_white_space(#[trigger] s[i]) by {
            if i > 0 {
                assert(s.drop_first()[i - 1] == s[i]);
            }
        }
        if leading_space(s) < s.len() {
            assert(s.drop_first()[leading_space(s.drop_first()) as int] == s[leading_space(
                s,
            ) as int]);
        }
    }
}

proof fn lemma_trailing_space(s: Seq<char>)
    ensures
        trailing_space(s) <= s.len(),
        forall|i: int| s.len() - trailing_space(s) <= i < s.len() ==> is_white_space(#[trigger] s[i]),
        trailing_space(s) < s.len() ==> !is_white_space(s[s.len() - trailing_space(s) - 1]),
    decreases s.len(),
{
    if s.len() > 0 && is_white_space(s.last()) {
        lemma_trailing_space(s.drop_last());
        assert forall|i: int| s.len() - trailing_space(s) <= i < s.len() implies is_white_space(
            #[trigger] s[i],
        ) by {
            if i < s.len() - 1 {
                assert(s.drop_last()[i] == s[i]);
            }
        }
        if trailing_space(s) < s.len() {
            let t = s.drop_last();
            assert(t[t.len() - trailing_space(t) - 1] == s[s.len() - trailing_space(s) - 1]);
        }
    }
}

/// `s` without the white space at its beginning and at its end.
pub fn trim_text(s: &str) -> (r: String)
    ensures
        r@ == trimmed(s@),
{
    let chars = chars_of(s);
    let n = chars.len();
    proof {
        lemma_leading_space(s@);
        lemma_trailing_space(s@);
    }
    let mut from: usize = 0;
    while from < n && char_is_white_space(chars[from])
        invariant
            from <= n,
            n == chars.len(),
            chars@ == s@,
            forall|i: int| 0 <= i < from ==> is_white_space(#[trigger] s@[i]),
        decreases n - from,
    {
        from += 1;
    }
    if from == n {
        proof {
            assert(blank(s@));
        }
        return String::new();
    }
    proof {
        assert(!blank(s@));
        let l = leading_space(s@) as int;
        if l < from {
            assert(is_white_space(s@[l]));
        } else if from < l {
            assert(is_white_space(s@[from as int]));
        }
    }
    let mut to: usize = n;
    while to > from && char_is_white_space(chars[to - 1])
        invariant
            from <= to <= n,
            n == chars.len(),
            chars@ == s@,
            from < n,
            !is_white_space(s@[from as int]),
            forall|i: int| to <= i < n ==> is_white_space(#[trigger] s@[i]),
        decreases to,
    {
        to -= 1;
    }
    proof {
        let t = s@.len() - trailing_space(s@);
        assert(to > from);
        if t < to {
            assert(is_white_space(s@[to - 1]));
        } else if to < t {
            assert(is_white_space(s@[t - 1]));
        }
    }
    text_of_chars(&chars, from, to)
}

} // verus!
