//! Text: building it, comparing it, and the few string operations that
//! symbols and messages need.
use crate::natural::Natural;
use vstd::prelude::*;
use vstd::string::*;

verus! {

/// `String::push`: the character is appended and nothing else changes.
pub assume_specification[ String::push ](s: &mut String, c: char)
    ensures
        final(s)@ == old(s)@.push(c),
;

/// Whether two texts hold the same characters.
pub fn same(a: &str, b: &str) -> (r: bool)
    ensures
        r == (a@ == b@),
{
    a.to_owned() == b.to_owned()
}

/// The characters of `s`.
pub fn chars_of(s: &str) -> (v: Vec<char>)
    ensures
        v@ == s@,
{
    let mut v: Vec<char> = Vec::new();
    for c in it: s.chars()
        invariant
            v@ == s@.take(it.index() as int),
            it.seq() == s@,
    {
        v.push(c);
        assert(v@ =~= s@.take(it.index() as int + 1));
    }
    assert(s@.take(s@.len() as int) =~= s@);
    v
}

/// The text of characters `from..to` of `v`.
pub fn text_of(v: &Vec<char>, from: usize, to: usize) -> (s: String)
    requires
        from <= to <= v@.len(),
    ensures
        s@ == v@.subrange(from as int, to as int),
{
    let mut s: String = String::new();
    let mut i: usize = from;
    while i < to
        invariant
            from <= i <= to <= v@.len(),
            s@ =~= v@.subrange(from as int, i as int),
        decreases to - i,
    {
        s.push(v[i]);
        i = i + 1;
    }
    s
}

/// `a` followed by `b`.
pub fn join(a: &str, b: &str) -> (r: String)
    ensures
        r@ == a@ + b@,
{
    let mut r: String = a.to_owned();
    r.append(b);
    r
}

/// The decimal digit for `d`.
pub open spec fn digit_char(d: nat) -> char {
    if d == 0 {
        '0'
    } else if d == 1 {
        '1'
    } else if d == 2 {
        '2'
    } else if d == 3 {
        '3'
    } else if d == 4 {
        '4'
    } else if d == 5 {
        '5'
    } else if d == 6 {
        '6'
    } else if d == 7 {
        '7'
    } else if d == 8 {
        '8'
    } else {
        '9'
    }
}

/// `n` in decimal, without leading zeros.
pub open spec fn decimal(n: nat) -> Seq<char>
    decreases n,
{
    if n < 10 {
        seq![digit_char(n)]
    } else {
        decimal(n / 10).push(digit_char(n % 10))
    }
}

fn digit(d: u32) -> (c: char)
    requires
        d < 10,
    ensures
        c == digit_char(d as nat),
{
    if d == 0 {
        '0'
    } else if d == 1 {
        '1'
    } else if d == 2 {
        '2'
    } else if d == 3 {
        '3'
    } else if d == 4 {
        '4'
    } else if d == 5 {
        '5'
    } else if d == 6 {
        '6'
    } else if d == 7 {
        '7'
    } else if d == 8 {
        '8'
    } else {
        '9'
    }
}

/// The decimal digits of `n`, most significant first.
pub fn decimal_digits(n: &Natural) -> (v: Vec<char>)
    ensures
        v@ == decimal(n@),
{
    let mut low: Vec<char> = Vec::new();
    let ten: Natural = Natural::from_u64(10);
    let mut rest: Natural = n.copy();
    assert(decimal(n@) + low@.reverse() =~= decimal(n@));
    while !rest.less(&ten)
        invariant
            ten@ == 10,
            decimal(n@) == decimal(rest@) + low@.reverse(),
        decreases rest@,
    {
        let (q, r) = rest.div_small(10);
        let ghost before = low@;
        low.push(digit(r));
        proof {
            assert(decimal(rest@) == decimal(q@).push(digit_char(r as nat)));
            assert(low@.reverse() =~= seq![digit_char(r as nat)] + before.reverse());
            assert(decimal(rest@) + before.reverse() =~= decimal(q@) + low@.reverse());
        }
        rest = q;
    }
    let (_, last) = rest.div_small(10);
    let mut v: Vec<char> = Vec::new();
    v.push(digit(last));
    let mut i: usize = low.len();
    while i > 0
        invariant
            i <= low@.len(),
            v@ =~= seq![digit_char(last as nat)] + low@.skip(i as int).reverse(),
        decreases i,
    {
        v.push(low[i - 1]);
        proof {
            assert(low@.skip(i as int - 1).reverse() =~= low@.skip(i as int).reverse().push(
                low@[i as int - 1],
            ));
        }
        i = i - 1;
    }
    assert(low@.skip(0) =~= low@);
    v
}

/// `n` in decimal.
pub fn decimal_text(n: u64) -> (s: String)
    ensures
        s@ == decimal(n as nat),
{
    let v: Vec<char> = decimal_digits(&Natural::from_u64(n));
    let s: String = text_of(&v, 0, v.len());
    assert(v@.subrange(0, v@.len() as int) =~= v@);
    s
}

/// `n` in decimal.
pub fn decimal_text_wide(n: u128) -> (s: String)
    ensures
        s@ == decimal(n as nat),
{
    let hi: u64 = (n / 0x1_0000_0000_0000_0000) as u64;
    let lo: u64 = (n % 0x1_0000_0000_0000_0000) as u64;
    let wide: Natural = Natural::from_u64(hi).mul_small(65536, 0).mul_small(65536, 0).mul_small(
        65536,
        0,
    ).mul_small(65536, 0).plus(&Natural::from_u64(lo));
    let v: Vec<char> = decimal_digits(&wide);
    let s: String = text_of(&v, 0, v.len());
    assert(v@.subrange(0, v@.len() as int) =~= v@);
    s
}

/// Whether `s` has no slash in it.
pub open spec fn slash_free(s: Seq<char>) -> bool {
    forall|i: int| 0 <= i < s.len() ==> s[i] != '/'
}

/// Whether the one slash of `s` is at `i`.
pub open spec fn only_slash_at(s: Seq<char>, i: int) -> bool {
    0 <= i < s.len() && s[i] == '/' && forall|j: int| 0 <= j < s.len() && j != i ==> s[j] != '/'
}

/// What stands before and after the slash of a text with exactly one.
pub open spec fn halves(s: Seq<char>) -> Option<(Seq<char>, Seq<char>)> {
    if exists|i: int| only_slash_at(s, i) {
        let i = choose|i: int| only_slash_at(s, i);
        Some((s.take(i), s.skip(i + 1)))
    } else {
        None
    }
}

/// What stands before and after the slash of a text with exactly one.
pub fn split_pair(s: &str) -> (r: Option<(String, String)>)
    ensures
        match r {
            Some(p) => halves(s@) == Some((p.0@, p.1@)),
            None => halves(s@) is None,
        },
{
    let v: Vec<char> = chars_of(s);
    let n: usize = v.len();
    let mut at: usize = n;
    let mut i: usize = 0;
    while i < n
        invariant
            i <= n,
            n == v@.len(),
            v@ == s@,
            at <= n,
            at < n ==> at < i && v@[at as int] == '/',
            forall|j: int| 0 <= j < i && j != at ==> v@[j] != '/',
        decreases n - i,
    {
        if v[i] == '/' {
            if at < n {
                proof {
                    if exists|k: int| only_slash_at(s@, k) {
                        let k = choose|k: int| only_slash_at(s@, k);
                        assert(if k == at {
                            s@[i as int] != '/'
                        } else {
                            s@[at as int] != '/'
                        });
                    }
                }
                return None;
            }
            at = i;
        }
        i = i + 1;
    }
    if at == n {
        return None;
    }
    proof {
        assert(only_slash_at(s@, at as int));
        let k = choose|k: int| only_slash_at(s@, k);
        assert(k == at);
        assert(s@.take(k) =~= v@.subrange(0, at as int));
        assert(s@.skip(k + 1) =~= v@.subrange(at + 1, n as int));
    }
    Some((text_of(&v, 0, at), text_of(&v, at + 1, n)))
}

/// `s` without its slashes.
pub open spec fn without_slashes(s: Seq<char>) -> Seq<char> {
    s.filter(|c: char| c != '/')
}

/// `s` without its slashes.
pub fn strip_slashes(s: &str) -> (r: String)
    ensures
        r@ == without_slashes(s@),
{
    let v: Vec<char> = chars_of(s);
    let mut r: String = String::new();
    let mut i: usize = 0;
    let ghost keep = |c: char| c != '/';
    proof {
        reveal(Seq::filter);
        assert(s@.take(0).filter(keep) =~= Seq::empty());
    }
    while i < v.len()
        invariant
            i <= v@.len(),
            v@ == s@,
            keep == (|c: char| c != '/'),
            r@ == s@.take(i as int).filter(keep),
        decreases v@.len() - i,
    {
        proof {
            reveal(Seq::filter);
            assert(s@.take(i as int + 1).drop_last() =~= s@.take(i as int));
        }
        if v[i] != '/' {
            r.push(v[i]);
        }
        i = i + 1;
    }
    assert(s@.take(s@.len() as int) =~= s@);
    r
}

/// `s` without the run of `c` at its start.
pub open spec fn trimmed(s: Seq<char>, c: char) -> Seq<char>
    decreases s.len(),
{
    if s.len() > 0 && s[0] == c {
        trimmed(s.skip(1), c)
    } else {
        s
    }
}

/// `s` without the run of `c` at its start.
pub fn trim_front(s: &str, c: char) -> (r: String)
    ensures
        r@ == trimmed(s@, c),
{
    let v: Vec<char> = chars_of(s);
    let mut i: usize = 0;
    assert(s@.skip(0) =~= s@);
    while i < v.len() && v[i] == c
        invariant
            i <= v@.len(),
            v@ == s@,
            trimmed(s@, c) == trimmed(s@.skip(i as int), c),
        decreases v@.len() - i,
    {
        assert(s@.skip(i as int).skip(1) =~= s@.skip(i as int + 1));
        i = i + 1;
    }
    assert(v@.subrange(i as int, v@.len() as int) =~= s@.skip(i as int));
    text_of(&v, i, v.len())
}

/// The ticker by which the rest of the program knows an asset.
pub open spec fn canonical(sym: Seq<char>) -> Seq<char> {
    if sym == "XBT"@ || sym == "XXBT"@ {
        "BTC"@
    } else if sym == "XDG"@ || sym == "XXDG"@ {
        "DOGE"@
    } else {
        sym
    }
}

/// Map Kraken's internal base-asset symbols to the canonical ticker.
pub fn canonical_base(sym: &str) -> (r: String)
    ensures
        r@ == canonical(sym@),
{
    if same(sym, "XBT") || same(sym, "XXBT") {
        "BTC".to_owned()
    } else if same(sym, "XDG") || same(sym, "XXDG") {
        "DOGE".to_owned()
    } else {
        sym.to_owned()
    }
}

} // verus!
