//! Path and string algebra shared by the job kernels: joining path segments,
//! taking the last segment of a path, stripping a root prefix, escaping
//! spaces for remote shell commands, and rendering port numbers.

use vstd::prelude::*;
use vstd::string::*;

verus! {

/// Appends one character to a string.
///
/// Relies on `String::push`: appends the given `char` to the end of the
/// string.
#[verifier::external_body]
pub fn push_char(s: &mut String, c: char)
    ensures
        final(s)@ == old(s)@.push(c),
{
    s.push(c);
}

/// The suffix of `s` after the last occurrence of `c`; `s` itself when `c`
/// does not occur.
pub open spec fn after_last(s: Seq<char>, c: char) -> Seq<char>
    decreases s.len(),
{
    if s.len() == 0 {
        s
    } else if s.last() == c {
        Seq::empty()
    } else {
        after_last(s.drop_last(), c).push(s.last())
    }
}

/// The prefix of `s` before the last occurrence of `c`; empty when `c` does
/// not occur.
pub open spec fn before_last(s: Seq<char>, c: char) -> Seq<char>
    decreases s.len(),
{
    if s.len() == 0 {
        s
    } else if s.last() == c {
        s.drop_last()
    } else {
        before_last(s.drop_last(), c)
    }
}

/// `s` with a leading occurrence of `p` removed; `s` itself when `p` is not
/// a prefix.
pub open spec fn strip_prefix(s: Seq<char>, p: Seq<char>) -> Seq<char> {
    if p.len() <= s.len() && s.subrange(0, p.len() as int) == p {
        s.subrange(p.len() as int, s.len() as int)
    } else {
        s
    }
}

/// `s` with every space prefixed by a backslash.
pub open spec fn escape_spaces(s: Seq<char>) -> Seq<char>
    decreases s.len(),
{
    if s.len() == 0 {
        s
    } else if s.first() == ' ' {
        seq!['\\', ' '] + escape_spaces(s.drop_first())
    } else {
        seq![s.first()] + escape_spaces(s.drop_first())
    }
}

pub proof fn lemma_escape_spaces_app(a: Seq<char>, b: Seq<char>)
    ensures
        escape_spaces(a + b) == escape_spaces(a) + escape_spaces(b),
    decreases a.len(),
{
    if a.len() == 0 {
        assert(a + b =~= b);
        assert(escape_spaces(a) + escape_spaces(b) =~= escape_spaces(b));
    } else {
        lemma_escape_spaces_app(a.drop_first(), b);
        assert((a + b).drop_first() =~= a.drop_first() + b);
        assert((a + b).first() == a.first());
        if a.first() == ' ' {
            assert(escape_spaces(a + b) =~= seq!['\\', ' '] + (escape_spaces(a.drop_first())
                + escape_spaces(b)));
            assert(escape_spaces(a) + escape_spaces(b) =~= seq!['\\', ' '] + (escape_spaces(
                a.drop_first(),
            ) + escape_spaces(b)));
        } else {
            assert(escape_spaces(a + b) =~= seq![a.first()] + (escape_spaces(a.drop_first())
                + escape_spaces(b)));
            assert(escape_spaces(a) + escape_spaces(b) =~= seq![a.first()] + (escape_spaces(
                a.drop_first(),
            ) + escape_spaces(b)));
        }
    }
}

pub proof fn lemma_escape_spaces_one(c: char)
    ensures
        escape_spaces(seq![c]) == if c == ' ' {
            seq!['\\', ' ']
        } else {
            seq![c]
        },
{
    reveal_with_fuel(escape_spaces, 2);
    assert(seq![c].drop_first() =~= Seq::<char>::empty());
    if c == ' ' {
        assert(escape_spaces(seq![c]) =~= seq!['\\', ' ']);
    } else {
        assert(escape_spaces(seq![c]) =~= seq![c]);
    }
}

/// Concatenation of two strings.
pub fn concat2(a: &str, b: &str) -> (r: String)
    ensures
        r@ == a@ + b@,
{
    let mut r = String::from_str(a);
    r.append(b);
    r
}

/// `s` with every space prefixed by a backslash, as `escape_spaces` says.
pub fn escape_spaces_exec(s: &String) -> (r: String)
    ensures
        r@ == escape_spaces(s@),
{
    let text: &str = s.as_str();
    let n: usize = text.unicode_len();
    let mut r = String::new();
    let mut i: usize = 0;
    while i < n
        invariant
            n == s@.len(),
            text@ == s@,
            0 <= i <= n,
            r@ == escape_spaces(s@.subrange(0, i as int)),
        decreases n - i,
    {
        let c: char = text.get_char(i);
        if c == ' ' {
            push_char(&mut r, '\\');
            push_char(&mut r, ' ');
        } else {
            push_char(&mut r, c);
        }
        proof {
            let pre = s@.subrange(0, i as int);
            let one = seq![s@[i as int]];
            lemma_escape_spaces_app(pre, one);
            lemma_escape_spaces_one(s@[i as int]);
            assert(s@.subrange(0, i + 1) =~= pre + one);
            if c == ' ' {
                assert(r@ =~= escape_spaces(pre) + seq!['\\', ' ']);
            } else {
                assert(r@ =~= escape_spaces(pre) + seq![c]);
            }
        }
        i = i + 1;
    }
    proof {
        assert(s@.subrange(0, n as int) =~= s@);
    }
    r
}

/// True when `p` is a prefix of `s`.
pub fn is_prefix_of(s: &String, p: &String) -> (r: bool)
    ensures
        r == (p@.len() <= s@.len() && s@.subrange(0, p@.len() as int) == p@),
{
    let st: &str = s.as_str();
    let pt: &str = p.as_str();
    let sn: usize = st.unicode_len();
    let pn: usize = pt.unicode_len();
    if pn > sn {
        return false;
    }
    let mut i: usize = 0;
    while i < pn
        invariant
            st@ == s@,
            pt@ == p@,
            sn == s@.len(),
            pn == p@.len(),
            pn <= sn,
            0 <= i <= pn,
            forall|j: int| 0 <= j < i ==> s@[j] == p@[j],
        decreases pn - i,
    {
        if st.get_char(i) != pt.get_char(i) {
            proof {
                assert(s@.subrange(0, p@.len() as int)[i as int] == s@[i as int]);
            }
            return false;
        }
        i = i + 1;
    }
    proof {
        assert(s@.subrange(0, p@.len() as int) =~= p@);
    }
    true
}

/// `s` with a leading occurrence of `p` removed, as `strip_prefix` says.
pub fn strip_prefix_exec(s: &String, p: &String) -> (r: String)
    ensures
        r@ == strip_prefix(s@, p@),
{
    if is_prefix_of(s, p) {
        let st: &str = s.as_str();
        let sub: &str = st.substring_char(p.as_str().unicode_len(), st.unicode_len());
        String::from_str(sub)
    } else {
        s.clone()
    }
}

/// The index one past the last occurrence of `c` in `s`, or 0 when `c` does
/// not occur; used to relate scanning from the right with `after_last`.
proof fn lemma_after_last_no_occurrence(s: Seq<char>, c: char)
    requires
        forall|j: int| 0 <= j < s.len() ==> s[j] != c,
    ensures
        after_last(s, c) == s,
        before_last(s, c) == Seq::<char>::empty(),
    decreases s.len(),
{
    if s.len() > 0 {
        lemma_after_last_no_occurrence(s.drop_last(), c);
        assert(after_last(s, c) =~= s.drop_last().push(s.last()));
        assert(s.drop_last().push(s.last()) =~= s);
    }
}

proof fn lemma_after_last_split(s: Seq<char>, c: char, i: int)
    requires
        0 < i <= s.len(),
        s[i - 1] == c,
        forall|j: int| i <= j < s.len() ==> s[j] != c,
    ensures
        after_last(s, c) == s.subrange(i, s.len() as int),
        before_last(s, c) == s.subrange(0, i - 1),
    decreases s.len(),
{
    if i == s.len() {
        assert(s.last() == c);
        assert(after_last(s, c) =~= s.subrange(i, s.len() as int));
        assert(before_last(s, c) =~= s.subrange(0, i - 1));
    } else {
        assert(s.last() != c);
        lemma_after_last_split(s.drop_last(), c, i);
        assert(after_last(s, c) =~= s.drop_last().subrange(i, s.len() - 1).push(s.last()));
        assert(s.drop_last().subrange(i, s.len() - 1).push(s.last()) =~= s.subrange(
            i,
            s.len() as int,
        ));
        assert(s.drop_last().subrange(0, i - 1) =~= s.subrange(0, i - 1));
    }
}

/// The suffix of `s` after the last occurrence of `c`, as `after_last`
/// says; the whole string when `c` does not occur.
pub fn after_last_exec(s: &String, c: char) -> (r: String)
    ensures
        r@ == after_last(s@, c),
{
    let text: &str = s.as_str();
    let n: usize = text.unicode_len();
    let mut i: usize = n;
    while i > 0
        invariant
            text@ == s@,
            n == s@.len(),
            0 <= i <= n,
            forall|j: int| i <= j < n ==> s@[j] != c,
        decreases i,
    {
        if text.get_char(i - 1) == c {
            proof {
                lemma_after_last_split(s@, c, i as int);
            }
            let sub: &str = text.substring_char(i, n);
            return String::from_str(sub);
        }
        i = i - 1;
    }
    proof {
        lemma_after_last_no_occurrence(s@, c);
    }
    s.clone()
}

/// The last `/`-separated segment of `path`: the whole string when it holds
/// no slash.
pub fn last_segment(path: &String) -> (r: String)
    ensures
        r@ == after_last(path@, '/'),
{
    after_last_exec(path, '/')
}

/// The parent of `path`: everything before the last `/`, as `before_last`
/// says; empty when it holds no slash.
pub fn parent_of(path: &String) -> (r: String)
    ensures
        r@ == before_last(path@, '/'),
{
    let text: &str = path.as_str();
    let n: usize = text.unicode_len();
    let mut i: usize = n;
    while i > 0
        invariant
            text@ == path@,
            n == path@.len(),
            0 <= i <= n,
            forall|j: int| i <= j < n ==> path@[j] != '/',
        decreases i,
    {
        if text.get_char(i - 1) == '/' {
            proof {
                lemma_after_last_split(path@, '/', i as int);
            }
            let sub: &str = text.substring_char(0, i - 1);
            return String::from_str(sub);
        }
        i = i - 1;
    }
    proof {
        lemma_after_last_no_occurrence(path@, '/');
    }
    String::new()
}

/// The prefix of `s` before the first occurrence of `c`; `s` itself when
/// `c` does not occur.
pub open spec fn before_first(s: Seq<char>, c: char) -> Seq<char>
    decreases s.len(),
{
    if s.len() == 0 {
        s
    } else if s.first() == c {
        Seq::empty()
    } else {
        seq![s.first()] + before_first(s.drop_first(), c)
    }
}

proof fn lemma_before_first_none(s: Seq<char>, c: char)
    requires
        forall|j: int| 0 <= j < s.len() ==> s[j] != c,
    ensures
        before_first(s, c) == s,
    decreases s.len(),
{
    if s.len() > 0 {
        lemma_before_first_none(s.drop_first(), c);
        assert(seq![s.first()] + s.drop_first() =~= s);
    }
}

proof fn lemma_before_first_split(s: Seq<char>, c: char, i: int)
    requires
        0 <= i < s.len(),
        s[i] == c,
        forall|j: int| 0 <= j < i ==> s[j] != c,
    ensures
        before_first(s, c) == s.subrange(0, i),
    decreases i,
{
    if i == 0 {
        assert(s.first() == c);
        assert(before_first(s, c) =~= s.subrange(0, 0));
    } else {
        assert(s.first() != c);
        lemma_before_first_split(s.drop_first(), c, i - 1);
        assert(s.drop_first().subrange(0, i - 1) =~= s.subrange(1, i));
        assert(seq![s.first()] + s.subrange(1, i) =~= s.subrange(0, i));
    }
}

/// The prefix of `s` before the first occurrence of `c`, as `before_first`
/// says.
pub fn before_first_exec(s: &String, c: char) -> (r: String)
    ensures
        r@ == before_first(s@, c),
{
    let text: &str = s.as_str();
    let n: usize = text.unicode_len();
    let mut i: usize = 0;
    while i < n
        invariant
            text@ == s@,
            n == s@.len(),
            0 <= i <= n,
            forall|j: int| 0 <= j < i ==> s@[j] != c,
        decreases n - i,
    {
        if text.get_char(i) == c {
            proof {
                lemma_before_first_split(s@, c, i as int);
            }
            let sub: &str = text.substring_char(0, i);
            return String::from_str(sub);
        }
        i = i + 1;
    }
    proof {
        lemma_before_first_none(s@, c);
    }
    s.clone()
}

/// True when the string is nonempty and begins with `c`.
pub fn starts_with_char(s: &String, c: char) -> (r: bool)
    ensures
        r == (s@.len() > 0 && s@.first() == c),
{
    let text: &str = s.as_str();
    if text.unicode_len() == 0 {
        false
    } else {
        text.get_char(0) == c
    }
}

/// True when `s` holds `c` at any index at or past `from`.
pub fn contains_char_from(s: &String, c: char, from: usize) -> (r: bool)
    requires
        from <= s@.len(),
    ensures
        r == exists|j: int| from <= j < s@.len() && s@[j] == c,
{
    let text: &str = s.as_str();
    let n: usize = text.unicode_len();
    let mut i: usize = from;
    while i < n
        invariant
            text@ == s@,
            n == s@.len(),
            from <= i <= n,
            forall|j: int| from <= j < i ==> s@[j] != c,
        decreases n - i,
    {
        if text.get_char(i) == c {
            return true;
        }
        i = i + 1;
    }
    false
}

/// The decimal digit character for `n` in 0..=9.
pub open spec fn digit(n: nat) -> char {
    if n == 0 {
        '0'
    } else if n == 1 {
        '1'
    } else if n == 2 {
        '2'
    } else if n == 3 {
        '3'
    } else if n == 4 {
        '4'
    } else if n == 5 {
        '5'
    } else if n == 6 {
        '6'
    } else if n == 7 {
        '7'
    } else if n == 8 {
        '8'
    } else {
        '9'
    }
}

/// The decimal digit sequence of `n`, most significant first.
pub open spec fn dec_digits(n: nat) -> Seq<char>
    decreases n,
{
    if n < 10 {
        seq![digit(n)]
    } else {
        dec_digits(n / 10).push(digit(n % 10))
    }
}

fn digit_char(n: u16) -> (c: char)
    requires
        n < 10,
    ensures
        c == digit(n as nat),
{
    if n == 0 {
        '0'
    } else if n == 1 {
        '1'
    } else if n == 2 {
        '2'
    } else if n == 3 {
        '3'
    } else if n == 4 {
        '4'
    } else if n == 5 {
        '5'
    } else if n == 6 {
        '6'
    } else if n == 7 {
        '7'
    } else if n == 8 {
        '8'
    } else {
        '9'
    }
}

/// Appends the decimal rendering of `n` to `s`.
pub fn push_u16_decimal(s: &mut String, n: u16)
    ensures
        final(s)@ == old(s)@ + dec_digits(n as nat),
    decreases n,
{
    if n < 10 {
        push_char(s, digit_char(n));
        proof {
            assert(old(s)@.push(digit(n as nat)) =~= old(s)@ + dec_digits(n as nat));
        }
    } else {
        push_u16_decimal(s, n / 10);
        push_char(s, digit_char(n % 10));
        proof {
            assert((old(s)@ + dec_digits((n / 10) as nat)).push(digit((n % 10) as nat)) =~= old(
                s,
            )@ + dec_digits(n as nat));
        }
    }
}

/// Appends the decimal rendering of `n` to `s`.
pub fn push_u64_decimal(s: &mut String, n: u64)
    ensures
        final(s)@ == old(s)@ + dec_digits(n as nat),
    decreases n,
{
    if n < 10 {
        push_char(s, digit_char((n % 10) as u16));
        proof {
            assert(old(s)@.push(digit(n as nat)) =~= old(s)@ + dec_digits(n as nat));
        }
    } else {
        push_u64_decimal(s, n / 10);
        push_char(s, digit_char((n % 10) as u16));
        proof {
            assert((old(s)@ + dec_digits((n / 10) as nat)).push(digit((n % 10) as nat)) =~= old(
                s,
            )@ + dec_digits(n as nat));
        }
    }
}

/// The decimal rendering of a port number, as `dec_digits` says.
pub fn u16_to_string(n: u16) -> (r: String)
    ensures
        r@ == dec_digits(n as nat),
{
    let mut r = String::new();
    push_u16_decimal(&mut r, n);
    proof {
        assert(Seq::<char>::empty() + dec_digits(n as nat) =~= dec_digits(n as nat));
    }
    r
}

} // verus!
