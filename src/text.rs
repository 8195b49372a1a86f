use vstd::prelude::*;

verus! {

/// The characters of `s`, one element each.
pub fn chars_of(s: &str) -> (r: Vec<char>)
    ensures
        r@ == s@,
{
    let mut r: Vec<char> = Vec::new();
    for c in it: s.chars()
        invariant
            r@ == it.seq().subrange(0, it.index() as int),
    {
        r.push(c);
    }
    r
}


/// Position of the last `c` in `s`, or -1 where there is none.
pub open spec fn last_index(s: Seq<char>, c: char) -> int
    decreases s.len(),
{
    if s.len() == 0 {
        -1
    } else if s.last() == c {
        s.len() - 1
    } else {
        last_index(s.drop_last(), c)
    }
}

pub proof fn lemma_last_index(s: Seq<char>, c: char)
    ensures
        -1 <= last_index(s, c) < s.len(),
        last_index(s, c) >= 0 ==> s[last_index(s, c)] == c,
        forall|j: int| last_index(s, c) < j < s.len() ==> s[j] != c,
    decreases s.len(),
{
    if s.len() > 0 && s.last() != c {
        lemma_last_index(s.drop_last(), c);
        assert forall|j: int| last_index(s, c) < j < s.len() implies s[j] != c by {
            if j < s.len() - 1 {
                assert(s[j] == s.drop_last()[j]);
            }
        }
    }
}

/// The pieces of `s` between occurrences of `c`, in order; one piece where `c` does not occur.
pub open spec fn split_on(s: Seq<char>, c: char) -> Seq<Seq<char>>
    decreases s.len(),
{
    let i = last_index(s, c);
    if i < 0 {
        seq![s]
    } else {
        proof {
            lemma_last_index(s, c);
        }
        split_on(s.subrange(0, i), c).push(s.subrange(i + 1, s.len() as int))
    }
}

/// Splitting one more character: a separator closes the last piece, another
/// character extends it.
pub proof fn lemma_split_on_push(s: Seq<char>, c: char, x: char)
    ensures
        x == c ==> split_on(s.push(x), c) == split_on(s, c).push(seq![]),
        x != c ==> split_on(s.push(x), c) == split_on(s, c).drop_last().push(
            split_on(s, c).last().push(x),
        ),
        split_on(s, c).len() > 0,
    decreases s.len(),
{
    let t = s.push(x);
    lemma_last_index(s, c);
    lemma_last_index(t, c);
    assert(t.drop_last() =~= s);
    if x == c {
        assert(t.subrange(0, s.len() as int) =~= s);
        assert(t.subrange(s.len() + 1int, t.len() as int) =~= Seq::<char>::empty());
    } else {
        let i = last_index(s, c);
        assert(last_index(t, c) == i);
        if i >= 0 {
            assert(t.subrange(0, i) =~= s.subrange(0, i));
            assert(t.subrange(i + 1, t.len() as int) =~= s.subrange(i + 1, s.len() as int).push(x));
        } else {
            assert(split_on(t, c) == seq![t]);
        }
    }
}

/// The pieces of `s` between occurrences of `c`.
pub fn split_text(s: &str, c: char) -> (r: Vec<String>)
    ensures
        r@.map_values(|p: String| p@) == split_on(s@, c),
{
    let cs = chars_of(s);
    let mut r: Vec<String> = Vec::new();
    let mut start: usize = 0;
    let mut i: usize = 0;
    proof {
        assert(cs@.subrange(0, 0) =~= seq![]);
        assert(split_on(seq![], c) == seq![Seq::<char>::empty()]) by {
            lemma_last_index(seq![], c);
        }
    }
    while i < cs.len()
        invariant
            cs@ == s@,
            start <= i <= cs@.len(),
            split_on(cs@.subrange(0, i as int), c) == r@.map_values(|p: String| p@).push(
                cs@.subrange(start as int, i as int),
            ),
        decreases cs@.len() - i,
    {
        proof {
            lemma_split_on_push(cs@.subrange(0, i as int), c, cs@[i as int]);
            assert(cs@.subrange(0, i + 1) =~= cs@.subrange(0, i as int).push(cs@[i as int]));
        }
        if cs[i] == c {
            let ghost before = r@.map_values(|p: String| p@);
            r.push(String::from_str(s.substring_char(start, i)));
            assert(r@.map_values(|p: String| p@) =~= before.push(cs@.subrange(start as int, i as int)));
            start = i + 1;
            assert(cs@.subrange(start as int, i + 1) =~= seq![]);
        } else {
            assert(cs@.subrange(start as int, i + 1) =~= cs@.subrange(start as int, i as int).push(
                cs@[i as int],
            ));
        }
        i = i + 1;
    }
    let ghost before = r@.map_values(|p: String| p@);
    r.push(String::from_str(s.substring_char(start, cs.len())));
    assert(cs@.subrange(0, cs@.len() as int) =~= cs@);
    assert(r@.map_values(|p: String| p@) =~= before.push(cs@.subrange(start as int, cs@.len() as int)));
    r
}

/// The pieces joined, with `/` between consecutive ones.
pub open spec fn join_slash(ps: Seq<Seq<char>>) -> Seq<char>
    decreases ps.len(),
{
    if ps.len() == 0 {
        seq![]
    } else if ps.len() == 1 {
        ps[0]
    } else {
        join_slash(ps.drop_last()) + seq!['/'] + ps.last()
    }
}

/// `s` with every trailing repetition of `suffix` removed.
pub open spec fn trim_end_all(s: Seq<char>, suffix: Seq<char>) -> Seq<char>
    decreases s.len(),
{
    if suffix.len() > 0 && s.len() >= suffix.len() && s.subrange(s.len() - suffix.len(), s.len() as int)
        == suffix {
        trim_end_all(s.subrange(0, s.len() - suffix.len()), suffix)
    } else {
        s
    }
}


/// The pieces joined, with `/` between consecutive ones.
pub fn join_with_slash(ps: &Vec<String>) -> (r: String)
    ensures
        r@ == join_slash(ps@.map_values(|p: String| p@)),
{
    let ghost v = ps@.map_values(|p: String| p@);
    if ps.len() == 0 {
        return String::new();
    }
    let mut r = ps[0].clone();
    let mut i: usize = 1;
    proof {
        assert(v.subrange(0, 1).drop_last() =~= Seq::<Seq<char>>::empty());
    }
    while i < ps.len()
        invariant
            1 <= i <= ps@.len(),
            v == ps@.map_values(|p: String| p@),
            r@ == join_slash(v.subrange(0, i as int)),
        decreases ps@.len() - i,
    {
        proof {
            reveal_strlit("/");
            assert(v.subrange(0, i + 1).drop_last() =~= v.subrange(0, i as int));
        }
        r.append("/");
        r.append(ps[i].as_str());
        i = i + 1;
    }
    assert(v.subrange(0, i as int) =~= v);
    r
}

/// Whether the first `n` characters of `cs` end with `suffix`.
fn ends_with_at(cs: &Vec<char>, n: usize, suffix: &Vec<char>) -> (r: bool)
    requires
        n <= cs@.len(),
    ensures
        r == (suffix@.len() <= n && cs@.subrange(n - suffix@.len(), n as int) == suffix@),
{
    if suffix.len() > n {
        return false;
    }
    let start = n - suffix.len();
    let mut k: usize = 0;
    while k < suffix.len()
        invariant
            start + suffix@.len() == n <= cs@.len(),
            k <= suffix@.len(),
            forall|j: int| 0 <= j < k ==> cs@[start + j] == suffix@[j],
        decreases suffix@.len() - k,
    {
        if cs[start + k] != suffix[k] {
            assert(cs@.subrange(start as int, n as int)[k as int] != suffix@[k as int]);
            return false;
        }
        k = k + 1;
    }
    assert(cs@.subrange(start as int, n as int) =~= suffix@);
    true
}

/// `s` with every trailing repetition of `suffix` removed.
pub fn trim_end_matches(s: &str, suffix: &str) -> (r: String)
    ensures
        r@ == trim_end_all(s@, suffix@),
{
    let cs = chars_of(s);
    let suf = chars_of(suffix);
    let mut n: usize = cs.len();
    proof {
        assert(cs@.subrange(0, n as int) =~= s@);
    }
    while suf.len() > 0 && ends_with_at(&cs, n, &suf)
        invariant
            n <= cs@.len(),
            cs@ == s@,
            suf@ == suffix@,
            trim_end_all(cs@.subrange(0, n as int), suffix@) == trim_end_all(s@, suffix@),
        decreases n,
    {
        let ghost p = cs@.subrange(0, n as int);
        assert(p.subrange(p.len() - suffix@.len(), p.len() as int) =~= cs@.subrange(
            n - suffix@.len(),
            n as int,
        ));
        assert(p.subrange(0, p.len() - suffix@.len()) =~= cs@.subrange(0, n - suffix@.len()));
        n = n - suf.len();
    }
    proof {
        let p = cs@.subrange(0, n as int);
        if suffix@.len() > 0 && suffix@.len() <= n {
            assert(p.subrange(p.len() - suffix@.len(), p.len() as int) =~= cs@.subrange(
                n - suffix@.len(),
                n as int,
            ));
        }
    }
    String::from_str(s.substring_char(0, n))
}


/// Characters with the Unicode `White_Space` property.
pub open spec fn white_space(c: char) -> bool {
    ('\u{9}' <= c <= '\u{d}') || c == ' ' || c == '\u{85}' || c == '\u{a0}' || c == '\u{1680}' || (
    '\u{2000}' <= c <= '\u{200a}') || c == '\u{2028}' || c == '\u{2029}' || c == '\u{202f}' || c
        == '\u{205f}' || c == '\u{3000}'
}

pub fn is_white_space(c: char) -> (r: bool)
    ensures
        r == white_space(c),
{
    ('\u{9}' <= c && c <= '\u{d}') || c == ' ' || c == '\u{85}' || c == '\u{a0}' || c == '\u{1680}'
        || ('\u{2000}' <= c && c <= '\u{200a}') || c == '\u{2028}' || c == '\u{2029}' || c
        == '\u{202f}' || c == '\u{205f}' || c == '\u{3000}'
}

/// `s` without leading white space.
pub open spec fn trim_start(s: Seq<char>) -> Seq<char>
    decreases s.len(),
{
    if s.len() > 0 && white_space(s[0]) {
        trim_start(s.drop_first())
    } else {
        s
    }
}

/// `s` without trailing white space.
pub open spec fn trim_end(s: Seq<char>) -> Seq<char>
    decreases s.len(),
{
    if s.len() > 0 && white_space(s.last()) {
        trim_end(s.drop_last())
    } else {
        s
    }
}

/// `s` without leading and trailing white space.
pub open spec fn trim(s: Seq<char>) -> Seq<char> {
    trim_end(trim_start(s))
}

/// `s` without leading and trailing white space.
pub fn trim_text(s: &str) -> (r: String)
    ensures
        r@ == trim(s@),
{
    let cs = chars_of(s);
    let mut start: usize = 0;
    assert(cs@.subrange(0, cs@.len() as int) =~= s@);
    while start < cs.len() && is_white_space(cs[start])
        invariant
            start <= cs@.len(),
            cs@ == s@,
            trim_start(s@) == trim_start(cs@.subrange(start as int, cs@.len() as int)),
        decreases cs@.len() - start,
    {
        assert(cs@.subrange(start as int, cs@.len() as int).drop_first() =~= cs@.subrange(
            start + 1,
            cs@.len() as int,
        ));
        start = start + 1;
    }
    let mut end: usize = cs.len();
    proof {
        if start < cs@.len() {
            assert(!white_space(cs@.subrange(start as int, cs@.len() as int)[0]));
        }
        assert(trim_start(s@) == cs@.subrange(start as int, end as int));
    }
    while end > start && is_white_space(cs[end - 1])
        invariant
            start <= end <= cs@.len(),
            cs@ == s@,
            trim(s@) == trim_end(cs@.subrange(start as int, end as int)),
        decreases end,
    {
        assert(cs@.subrange(start as int, end as int).drop_last() =~= cs@.subrange(
            start as int,
            end - 1,
        ));
        end = end - 1;
    }
    String::from_str(s.substring_char(start, end))
}

/// `h` is `n`, or the upper-case ASCII letter for the lower-case letter `n`.
pub open spec fn same_letter(h: char, n: char) -> bool {
    h == n || ('a' <= n <= 'z' && h as u32 + 32 == n as u32)
}

/// `needle` occurs in `hay` at position `i`, ignoring the case of ASCII letters.
pub open spec fn occurs_at(hay: Seq<char>, needle: Seq<char>, i: int) -> bool {
    0 <= i && i + needle.len() <= hay.len() && forall|k: int|
        0 <= k < needle.len() ==> same_letter(#[trigger] hay[i + k], needle[k])
}

/// `needle`, written in lower case, occurs in `hay`, ignoring the case of ASCII letters.
pub open spec fn contains_ignoring_case(hay: Seq<char>, needle: Seq<char>) -> bool {
    exists|i: int| occurs_at(hay, needle, i)
}

pub fn contains_text_ignoring_case(hay: &str, needle: &str) -> (r: bool)
    ensures
        r == contains_ignoring_case(hay@, needle@),
{
    let h = chars_of(hay);
    let n = chars_of(needle);
    if n.len() > h.len() {
        return false;
    }
    let mut i: usize = 0;
    while i <= h.len() - n.len()
        invariant
            h@ == hay@,
            n@ == needle@,
            n@.len() <= h@.len(),
            i <= h@.len() - n@.len() + 1,
            forall|j: int| 0 <= j < i ==> !occurs_at(hay@, needle@, j),
        decreases h@.len() + 1 - i,
    {
        let mut k: usize = 0;
        let mut ok = true;
        while k < n.len()
            invariant
                h@ == hay@,
                n@ == needle@,
                i + n@.len() <= h@.len(),
                h@.len() <= usize::MAX,
                k <= n@.len(),
                ok ==> forall|m: int| 0 <= m < k ==> same_letter(#[trigger] hay@[i + m], needle@[m]),
                !ok ==> !occurs_at(hay@, needle@, i as int),
            decreases n@.len() - k,
        {
            let a = h[i + k];
            let b = n[k];
            if !(a == b || ('a' <= b && b <= 'z' && a as u32 == b as u32 - 32)) {
                ok = false;
            }
            k = k + 1;
        }
        if ok {
            assert(occurs_at(hay@, needle@, i as int));
            return true;
        }
        i = i + 1;
    }
    assert forall|j: int| !occurs_at(hay@, needle@, j) by {
        if j >= i {
            assert(!(j + needle@.len() <= hay@.len()));
        }
    }
    false
}

/// The decimal digit for `d`.
pub open spec fn digit(d: int) -> char {
    if d == 0 { '0' } else if d == 1 { '1' } else if d == 2 { '2' } else if d == 3 { '3' }
    else if d == 4 { '4' } else if d == 5 { '5' } else if d == 6 { '6' } else if d == 7 { '7' }
    else if d == 8 { '8' } else { '9' }
}

/// The decimal digits of `n`, without leading zeros.
pub open spec fn digits(n: nat) -> Seq<char>
    decreases n,
{
    if n < 10 {
        seq![digit(n as int)]
    } else {
        digits(n / 10).push(digit((n % 10) as int))
    }
}

/// `n` written in decimal, with a leading `-` where it is negative.
pub open spec fn decimal(n: int) -> Seq<char> {
    if n < 0 {
        seq!['-'] + digits((-n) as nat)
    } else {
        digits(n as nat)
    }
}

fn digit_text(d: u64) -> (r: &'static str)
    requires
        d < 10,
    ensures
        r@ == seq![digit(d as int)],
{
    let all = "0123456789";
    proof {
        reveal_strlit("0123456789");
    }
    let r = all.substring_char(d as usize, d as usize + 1);
    assert(r@ =~= seq![digit(d as int)]);
    r
}

fn digits_text(n: u64) -> (r: String)
    ensures
        r@ == digits(n as nat),
    decreases n,
{
    if n < 10 {
        String::from_str(digit_text(n))
    } else {
        let mut r = digits_text(n / 10);
        r.append(digit_text(n % 10));
        r
    }
}

/// `n` written in decimal.
pub fn decimal_text(n: i64) -> (r: String)
    ensures
        r@ == decimal(n as int),
{
    if n < 0 {
        proof {
            reveal_strlit("-");
        }
        let magnitude: u64 = if n == i64::MIN { 9223372036854775808u64 } else { (-n) as u64 };
        String::from_str("-").concat(digits_text(magnitude).as_str())
    } else {
        digits_text(n as u64)
    }
}


/// `s` begins with `p`.
pub open spec fn starts_with(s: Seq<char>, p: Seq<char>) -> bool {
    p.len() <= s.len() && s.subrange(0, p.len() as int) == p
}

/// What follows `prefix` in `s`, where `s` begins with it.
pub fn strip_prefix_text(s: &str, prefix: &str) -> (r: Option<String>)
    ensures
        match r {
            Some(t) => starts_with(s@, prefix@) && t@ == s@.subrange(prefix@.len() as int, s@.len() as int),
            None => !starts_with(s@, prefix@),
        },
{
    let cs = chars_of(s);
    let ps = chars_of(prefix);
    if ps.len() > cs.len() {
        return None;
    }
    let mut i: usize = 0;
    while i < ps.len()
        invariant
            ps@.len() <= cs@.len(),
            cs@ == s@,
            ps@ == prefix@,
            i <= ps@.len(),
            forall|j: int| 0 <= j < i ==> cs@[j] == ps@[j],
        decreases ps@.len() - i,
    {
        if cs[i] != ps[i] {
            assert(s@.subrange(0, prefix@.len() as int)[i as int] != prefix@[i as int]);
            return None;
        }
        i = i + 1;
    }
    assert(s@.subrange(0, prefix@.len() as int) =~= prefix@);
    Some(String::from_str(s.substring_char(ps.len(), cs.len())))
}

} // verus!
