//! Character-level helpers shared by the compiler and the protocol decoders.
use vstd::prelude::*;

verus! {

/// Relies on `String::push`: the character is appended at the end.
#[verifier::external_body]
pub(crate) fn push_char(s: &mut String, c: char)
    ensures
        final(s)@ == old(s)@.push(c),
{
    s.push(c)
}

/// Equality of two string slices by content.
pub fn str_eq(a: &str, b: &str) -> (r: bool)
    ensures
        r == (a@ == b@),
{
    let x = a.to_owned();
    let y = b.to_owned();
    x == y
}

/// A fresh `String` holding the characters of `s`.
pub fn owned(s: &str) -> (r: String)
    ensures
        r@ == s@,
{
    s.to_owned()
}

/// The digits used for decimal and hexadecimal numerals.
pub open spec fn digit_char(d: nat) -> char {
    seq!['0', '1', '2', '3', '4', '5', '6', '7', '8', '9', 'a', 'b', 'c', 'd', 'e', 'f'][d as int]
}

/// The numeral of `n` in `base` (2 to 16), most significant digit first, without leading zeros.
pub open spec fn numeral(n: nat, base: nat) -> Seq<char>
    decreases n,
    via numeral_decreases
{
    if base < 2 || base > 16 {
        Seq::empty()
    } else if n < base {
        seq![digit_char(n)]
    } else {
        numeral(n / base, base).push(digit_char(n % base))
    }
}

#[via_fn]
proof fn numeral_decreases(n: nat, base: nat) {
    if 2 <= base && n >= base {
        assert(n / base < n) by (nonlinear_arith)
            requires
                2 <= base,
                n >= base,
        ;
    }
}

/// The numeral of `n` in `base`, as text.
pub fn numeral_text(n: u64, base: u64) -> (r: String)
    requires
        2 <= base <= 16,
    ensures
        r@ == numeral(n as nat, base as nat),
{
    let mut m: u64 = n;
    let mut rev: Vec<char> = Vec::new();
    while m >= base
        invariant
            2 <= base <= 16,
            numeral(n as nat, base as nat) == numeral(m as nat, base as nat) + rev@.reverse(),
        decreases m,
    {
        let d: u64 = m % base;
        let ghost old_rev = rev@;
        rev.push(digit_char_exec(d));
        assert(rev@.reverse() =~= seq![digit_char(d as nat)] + old_rev.reverse());
        assert(numeral(m as nat, base as nat) == numeral((m / base) as nat, base as nat).push(
            digit_char(d as nat),
        ));
        assert(numeral(m as nat, base as nat) + old_rev.reverse() =~= numeral(
            (m / base) as nat,
            base as nat,
        ) + rev@.reverse());
        m = m / base;
    }
    let ghost old_rev = rev@;
    rev.push(digit_char_exec(m));
    assert(rev@.reverse() =~= seq![digit_char(m as nat)] + old_rev.reverse());
    let mut r = String::new();
    let mut i: usize = rev.len();
    while i > 0
        invariant
            i <= rev.len(),
            r@ == rev@.subrange(i as int, rev@.len() as int).reverse(),
        decreases i,
    {
        i = i - 1;
        push_char(&mut r, rev[i]);
        assert(r@ =~= rev@.subrange(i as int, rev@.len() as int).reverse());
    }
    assert(r@ =~= rev@.reverse());
    r
}

fn digit_char_exec(d: u64) -> (c: char)
    requires
        d < 16,
    ensures
        c == digit_char(d as nat),
{
    let digits: [char; 16] = ['0', '1', '2', '3', '4', '5', '6', '7', '8', '9', 'a', 'b', 'c', 'd', 'e', 'f'];
    digits[d as usize]
}


/// The characters of `s`, one by one.
pub fn chars_of(s: &str) -> (r: Vec<char>)
    ensures
        r@ == s@,
{
    let n = s.unicode_len();
    let mut r: Vec<char> = Vec::new();
    let mut i: usize = 0;
    while i < n
        invariant
            n == s@.len(),
            i <= n,
            r@ == s@.subrange(0, i as int),
        decreases n - i,
    {
        r.push(s.get_char(i));
        i = i + 1;
        assert(r@ =~= s@.subrange(0, i as int));
    }
    assert(r@ =~= s@);
    r
}

/// A `String` holding `v[from..to]`.
pub fn text_of(v: &Vec<char>, from: usize, to: usize) -> (r: String)
    requires
        from <= to <= v@.len(),
    ensures
        r@ == v@.subrange(from as int, to as int),
{
    let mut r = String::new();
    let mut i: usize = from;
    while i < to
        invariant
            from <= i <= to <= v@.len(),
            r@ == v@.subrange(from as int, i as int),
        decreases to - i,
    {
        push_char(&mut r, v[i]);
        i = i + 1;
        assert(r@ =~= v@.subrange(from as int, i as int));
    }
    r
}

/// `a` followed by `b`.
pub fn concat(a: &str, b: &str) -> (r: String)
    ensures
        r@ == a@ + b@,
{
    let mut r = a.to_owned();
    r.append(b);
    r
}

/// `pat` occurs in `s` starting at index `i`.
pub open spec fn occurs_at(s: Seq<char>, pat: Seq<char>, i: int) -> bool {
    0 <= i && i + pat.len() <= s.len() && s.subrange(i, i + pat.len()) == pat
}

/// `i` is the first index at which `pat` occurs in `s`.
pub open spec fn first_at(s: Seq<char>, pat: Seq<char>, i: int) -> bool {
    occurs_at(s, pat, i) && forall|j: int| 0 <= j < i ==> !occurs_at(s, pat, j)
}

/// The first index at which `pat` occurs in `s`, if any.
pub open spec fn find(s: Seq<char>, pat: Seq<char>) -> Option<int> {
    if exists|i: int| occurs_at(s, pat, i) {
        Some(choose|i: int| first_at(s, pat, i))
    } else {
        None
    }
}

/// Where `pat` occurs first, `find` gives that index.
pub proof fn lemma_find_first(s: Seq<char>, pat: Seq<char>, i: int)
    requires
        first_at(s, pat, i),
    ensures
        find(s, pat) == Some(i),
{
    let c = choose|c: int| first_at(s, pat, c);
    assert(first_at(s, pat, c));
    if c < i {
        assert(!occurs_at(s, pat, c));
    } else if c > i {
        assert(!occurs_at(s, pat, i));
    }
}

/// The first index at which `pat` occurs in `s`, if any.
pub fn find_in(s: &Vec<char>, pat: &Vec<char>) -> (r: Option<usize>)
    ensures
        match r {
            Some(i) => find(s@, pat@) == Some(i as int) && first_at(s@, pat@, i as int),
            None => find(s@, pat@) is None,
        },
{
    if pat.len() > s.len() {
        assert forall|i: int| !occurs_at(s@, pat@, i) by {}
        return None;
    }
    let last: usize = s.len() - pat.len();
    let mut i: usize = 0;
    while i <= last
        invariant
            last + pat@.len() == s@.len(),
            forall|j: int| 0 <= j < i ==> !occurs_at(s@, pat@, j),
        decreases last + 1 - i,
    {
        let mut k: usize = 0;
        let mut same = true;
        while k < pat.len()
            invariant
                i <= last,
                last + pat@.len() == s@.len(),
                s@.len() == s.len(),
                k <= pat@.len(),
                same == (forall|m: int| 0 <= m < k ==> s@[i + m] == pat@[m]),
            decreases pat.len() - k,
        {
            if s[i + k] != pat[k] {
                same = false;
            }
            k = k + 1;
        }
        if same {
            assert(s@.subrange(i as int, i + pat@.len()) =~= pat@);
            assert(first_at(s@, pat@, i as int));
            let ghost c = choose|c: int| first_at(s@, pat@, c);
            assert(c == i) by {
                if c < i {
                } else if c > i {
                    assert(!occurs_at(s@, pat@, i as int));
                }
            }
            return Some(i);
        }
        assert(!occurs_at(s@, pat@, i as int)) by {
            let ghost m = choose|m: int| 0 <= m < pat@.len() && s@[i + m] != pat@[m];
            if occurs_at(s@, pat@, i as int) {
                assert(s@.subrange(i as int, i + pat@.len())[m] == s@[i + m]);
            }
        }
        if i == last {
            return None;
        }
        i = i + 1;
    }
    None
}

/// The text of `parts` with `sep` between each two neighbours.
pub open spec fn join(parts: Seq<Seq<char>>, sep: Seq<char>) -> Seq<char>
    decreases parts.len(),
{
    if parts.len() == 0 {
        Seq::empty()
    } else if parts.len() == 1 {
        parts[0]
    } else {
        join(parts.drop_last(), sep) + sep + parts.last()
    }
}

/// The views of a sequence of strings.
pub open spec fn views(v: Seq<String>) -> Seq<Seq<char>> {
    v.map_values(|s: String| s@)
}

/// The text of `parts` with `sep` between each two neighbours.
pub fn join_with(parts: &Vec<String>, sep: &str) -> (r: String)
    ensures
        r@ == join(views(parts@), sep@),
{
    let mut r = String::new();
    let mut i: usize = 0;
    while i < parts.len()
        invariant
            i <= parts@.len(),
            r@ == join(views(parts@.subrange(0, i as int)), sep@),
        decreases parts.len() - i,
    {
        if i > 0 {
            r.append(sep);
        }
        r.append(parts[i].as_str());
        i = i + 1;
        assert(views(parts@.subrange(0, i as int)).drop_last() =~= views(
            parts@.subrange(0, i - 1),
        ));
    }
    assert(parts@.subrange(0, i as int) =~= parts@);
    r
}

/// `s` with each newline followed by `pad`.
pub open spec fn indent(s: Seq<char>, pad: Seq<char>) -> Seq<char>
    decreases s.len(),
{
    if s.len() == 0 {
        Seq::empty()
    } else if s.last() == '\n' {
        indent(s.drop_last(), pad) + seq!['\n'] + pad
    } else {
        indent(s.drop_last(), pad).push(s.last())
    }
}

/// `s` with each newline followed by `pad`.
pub fn indent_lines(s: &str, pad: &str) -> (r: String)
    ensures
        r@ == indent(s@, pad@),
{
    let v = chars_of(s);
    let mut r = String::new();
    let mut i: usize = 0;
    while i < v.len()
        invariant
            i <= v@.len(),
            v@ == s@,
            r@ == indent(v@.subrange(0, i as int), pad@),
        decreases v.len() - i,
    {
        let c = v[i];
        push_char(&mut r, c);
        if c == '\n' {
            r.append(pad);
        }
        i = i + 1;
        assert(v@.subrange(0, i as int).drop_last() =~= v@.subrange(0, i - 1));
    }
    assert(v@.subrange(0, i as int) =~= v@);
    r
}

/// `s` with the first occurrence of `pat`, if any, replaced by `by`.
pub open spec fn replace_first(s: Seq<char>, pat: Seq<char>, by: Seq<char>) -> Seq<char> {
    match find(s, pat) {
        Some(i) => s.subrange(0, i) + by + s.subrange(i + pat.len(), s.len() as int),
        None => s,
    }
}

/// `s` with the first occurrence of `pat`, if any, replaced by `by`.
pub fn replace_first_text(s: &str, pat: &str, by: &str) -> (r: String)
    ensures
        r@ == replace_first(s@, pat@, by@),
{
    let v = chars_of(s);
    let p = chars_of(pat);
    match find_in(&v, &p) {
        Some(i) => {
            assert(occurs_at(v@, p@, i as int));
            assert(i + p@.len() <= v@.len());
            let total: usize = v.len();
            let end: usize = i + p.len();
            let mut r = text_of(&v, 0, i);
            r.append(by);
            let tail = text_of(&v, end, total);
            r.append(tail.as_str());
            r
        },
        None => owned(s),
    }
}

} // verus!
