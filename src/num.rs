use vstd::prelude::*;

verus! {

pub open spec fn is_dec_digit(c: char) -> bool {
    '0' <= c && c <= '9'
}

pub open spec fn dec_digit_value(c: char) -> nat {
    (c as nat - '0' as nat) as nat
}

pub open spec fn is_hex_digit(c: char) -> bool {
    ('0' <= c && c <= '9') || ('a' <= c && c <= 'f') || ('A' <= c && c <= 'F')
}

pub open spec fn hex_digit_value(c: char) -> nat {
    if '0' <= c && c <= '9' {
        (c as nat - '0' as nat) as nat
    } else if 'a' <= c && c <= 'f' {
        (c as nat - 'a' as nat + 10) as nat
    } else {
        (c as nat - 'A' as nat + 10) as nat
    }
}

pub open spec fn all_dec(s: Seq<char>) -> bool {
    forall|i: int| 0 <= i < s.len() ==> is_dec_digit(#[trigger] s[i])
}

pub open spec fn all_hex(s: Seq<char>) -> bool {
    forall|i: int| 0 <= i < s.len() ==> is_hex_digit(#[trigger] s[i])
}

/// Value of a string of decimal digits.
pub open spec fn dec_value(s: Seq<char>) -> nat
    decreases s.len(),
{
    if s.len() == 0 {
        0
    } else {
        dec_value(s.drop_last()) * 10 + dec_digit_value(s.last())
    }
}

/// Value of a string of hexadecimal digits.
pub open spec fn hex_value(s: Seq<char>) -> nat
    decreases s.len(),
{
    if s.len() == 0 {
        0
    } else {
        hex_value(s.drop_last()) * 16 + hex_digit_value(s.last())
    }
}

pub open spec fn dec_char(d: nat) -> char {
    (d + '0' as nat) as char
}

pub open spec fn hex_char(d: nat) -> char {
    if d < 10 {
        (d + '0' as nat) as char
    } else {
        (d - 10 + 'a' as nat) as char
    }
}

/// Shortest decimal text of `n`.
pub open spec fn dec_text(n: nat) -> Seq<char>
    decreases n,
{
    if n < 10 {
        seq![dec_char(n)]
    } else {
        dec_text(n / 10).push(dec_char(n % 10))
    }
}

/// Shortest lower-case hexadecimal text of `n`.
pub open spec fn hex_text(n: nat) -> Seq<char>
    decreases n,
{
    if n < 16 {
        seq![hex_char(n)]
    } else {
        hex_text(n / 16).push(hex_char(n % 16))
    }
}

/// A decimal `u16` as `str::parse::<u16>` reads it: an optional `+`, then
/// one or more digits whose value fits.
pub open spec fn parse_u16(s: Seq<char>) -> Option<u16> {
    let d = if s.len() > 0 && s[0] == '+' {
        s.subrange(1, s.len() as int)
    } else {
        s
    };
    if d.len() > 0 && all_dec(d) && dec_value(d) <= 65535 {
        Some(dec_value(d) as u16)
    } else {
        None
    }
}

/// The parts of `s` between separators `c`, and the part still open at its end.
pub open spec fn split_acc(s: Seq<char>, c: char) -> (Seq<Seq<char>>, Seq<char>)
    decreases s.len(),
{
    if s.len() == 0 {
        (Seq::empty(), Seq::empty())
    } else {
        let (ps, cur) = split_acc(s.drop_last(), c);
        if s.last() == c {
            (ps.push(cur), Seq::empty())
        } else {
            (ps, cur.push(s.last()))
        }
    }
}

/// `s` cut at every `c`, as `str::split` does.
pub open spec fn split(s: Seq<char>, c: char) -> Seq<Seq<char>> {
    split_acc(s, c).0.push(split_acc(s, c).1)
}

pub open spec fn pow10(n: nat) -> nat
    decreases n,
{
    if n == 0 {
        1
    } else {
        10 * pow10((n - 1) as nat)
    }
}

/// Digits after a prefix only make the value larger.
pub proof fn lemma_dec_value_prefix(s: Seq<char>, i: int)
    requires
        0 <= i <= s.len(),
    ensures
        dec_value(s.subrange(0, i)) <= dec_value(s),
    decreases s.len() - i,
{
    if i < s.len() {
        lemma_dec_value_prefix(s, i + 1);
        assert(s.subrange(0, i + 1).drop_last() =~= s.subrange(0, i));
    } else {
        assert(s.subrange(0, i) =~= s);
    }
}

/// Reads a decimal `u16` exactly as `parse_u16` describes.
pub fn parse_port(s: &[char]) -> (r: Option<u16>)
    ensures
        r == parse_u16(s@),
{
    let start: usize = if s.len() > 0 && s[0] == '+' {
        1
    } else {
        0
    };
    let ghost d = if s@.len() > 0 && s@[0] == '+' {
        s@.subrange(1, s@.len() as int)
    } else {
        s@
    };
    assert(d =~= s@.subrange(start as int, s@.len() as int));
    assert(parse_u16(s@) == (if d.len() > 0 && all_dec(d) && dec_value(d) <= 65535 {
        Some(dec_value(d) as u16)
    } else {
        None
    }));
    if start >= s.len() {
        return None;
    }
    let mut v: u32 = 0;
    let mut i: usize = start;
    while i < s.len()
        invariant
            start <= i <= s@.len(),
            d == s@.subrange(start as int, s@.len() as int),
            parse_u16(s@) == (if d.len() > 0 && all_dec(d) && dec_value(d) <= 65535 {
                Some(dec_value(d) as u16)
            } else {
                None
            }),
            all_dec(s@.subrange(start as int, i as int)),
            v as nat == dec_value(s@.subrange(start as int, i as int)),
            v <= 65535,
        decreases s@.len() - i,
    {
        let c = s[i];
        if !('0' <= c && c <= '9') {
            assert(d[(i - start) as int] == c);
            assert(!is_dec_digit(d[(i - start) as int]));
            assert(!all_dec(d));
            return None;
        }
        let ghost pre = s@.subrange(start as int, i as int);
        let ghost next = s@.subrange(start as int, i + 1);
        assert(next.drop_last() =~= pre);
        assert(all_dec(next)) by {
            assert forall|j: int| 0 <= j < next.len() implies is_dec_digit(#[trigger] next[j]) by {
                if j < pre.len() {
                    assert(next[j] == pre[j]);
                }
            }
        }
        assert(dec_value(next) == dec_value(pre) * 10 + dec_digit_value(c));
        let nv: u32 = v * 10 + (c as u32 - '0' as u32);
        if nv > 65535 {
            proof {
                assert(d.subrange(0, (i + 1 - start) as int) =~= next);
                lemma_dec_value_prefix(d, (i + 1 - start) as int);

            }
            return None;
        }
        v = nv;
        i = i + 1;
    }
    assert(s@.subrange(start as int, i as int) =~= d);
    Some(v as u16)
}

/// Appends the shortest decimal text of `n`.
pub fn push_dec(v: &mut Vec<char>, n: u64)
    ensures
        final(v)@ == old(v)@ + dec_text(n as nat),
    decreases n,
{
    if n >= 10 {
        push_dec(v, n / 10);
    }
    let d: u8 = (n % 10) as u8;
    v.push((48u8 + d) as char);
    proof {
        if n >= 10 {
            assert(old(v)@ + dec_text(n as nat) =~= old(v)@ + dec_text((n / 10) as nat) + seq![
                dec_char((n % 10) as nat),
            ]);
        } else {
            assert(old(v)@ + dec_text(n as nat) =~= old(v)@ + seq![dec_char((n % 10) as nat)]);
        }
    }
}

/// Appends the shortest lower-case hexadecimal text of `n`.
pub fn push_hex(v: &mut Vec<char>, n: u64)
    ensures
        final(v)@ == old(v)@ + hex_text(n as nat),
    decreases n,
{
    if n >= 16 {
        push_hex(v, n / 16);
    }
    let d: u8 = (n % 16) as u8;
    let c: char = if d < 10 {
        (48u8 + d) as char
    } else {
        (87u8 + d) as char
    };
    v.push(c);
    proof {
        if n >= 16 {
            assert(old(v)@ + hex_text(n as nat) =~= old(v)@ + hex_text((n / 16) as nat) + seq![
                hex_char((n % 16) as nat),
            ]);
        } else {
            assert(old(v)@ + hex_text(n as nat) =~= old(v)@ + seq![hex_char((n % 16) as nat)]);
        }
    }
}

/// Cuts `s` at every `c`.
pub fn split_chars(s: &[char], c: char) -> (r: Vec<Vec<char>>)
    ensures
        r@.len() == split(s@, c).len(),
        forall|i: int| 0 <= i < r@.len() ==> #[trigger] r@[i]@ == split(s@, c)[i],
{
    let mut parts: Vec<Vec<char>> = Vec::new();
    let mut cur: Vec<char> = Vec::new();
    let mut i: usize = 0;
    while i < s.len()
        invariant
            i <= s@.len(),
            parts@.len() == split_acc(s@.subrange(0, i as int), c).0.len(),
            forall|j: int|
                0 <= j < parts@.len() ==> #[trigger] parts@[j]@ == split_acc(
                    s@.subrange(0, i as int),
                    c,
                ).0[j],
            cur@ == split_acc(s@.subrange(0, i as int), c).1,
        decreases s@.len() - i,
    {
        assert(s@.subrange(0, i + 1).drop_last() =~= s@.subrange(0, i as int));
        if s[i] == c {
            let mut done: Vec<char> = Vec::new();
            std::mem::swap(&mut done, &mut cur);
            parts.push(done);
            assert(cur@ =~= Seq::<char>::empty());
        } else {
            cur.push(s[i]);
        }
        i = i + 1;
    }
    assert(s@.subrange(0, i as int) =~= s@);
    parts.push(cur);
    parts
}

pub open spec fn has_no(s: Seq<char>, c: char) -> bool {
    forall|i: int| 0 <= i < s.len() ==> #[trigger] s[i] != c
}

/// Characters free of the separator extend the open part.
pub proof fn lemma_split_acc_append(x: Seq<char>, b: Seq<char>, c: char)
    requires
        has_no(b, c),
    ensures
        split_acc(x + b, c) == (split_acc(x, c).0, split_acc(x, c).1 + b),
    decreases b.len(),
{
    if b.len() == 0 {
        assert(x + b =~= x);
        assert(split_acc(x, c).1 + b =~= split_acc(x, c).1);
    } else {
        let bp = b.drop_last();
        assert(has_no(bp, c)) by {
            assert forall|i: int| 0 <= i < bp.len() implies #[trigger] bp[i] != c by {
                assert(bp[i] == b[i]);
            }
        }
        lemma_split_acc_append(x, bp, c);
        assert((x + b).drop_last() =~= x + bp);
        assert((x + b).last() == b.last());
        assert(b.last() != c);
        assert(split_acc(x, c).1 + bp.push(b.last()) =~= split_acc(x, c).1 + b);
        assert(bp.push(b.last()) =~= b);
        assert((split_acc(x, c).1 + bp).push(b.last()) =~= split_acc(x, c).1 + b);
    }
}

/// Text without the separator is a single part.
pub proof fn lemma_split_single(b: Seq<char>, c: char)
    requires
        has_no(b, c),
    ensures
        split(b, c) == seq![b],
{
    lemma_split_acc_append(Seq::empty(), b, c);
    assert(Seq::<char>::empty() + b =~= b);
    assert(Seq::<char>::empty() + b =~= b);
    assert(split(b, c) =~= seq![b]);
}

/// Cutting `a`, a separator, and separator-free `b` gives the parts of `a` and then `b`.
pub proof fn lemma_split_snoc(a: Seq<char>, b: Seq<char>, c: char)
    requires
        has_no(b, c),
    ensures
        split(a + seq![c] + b, c) == split(a, c).push(b),
{
    let x = a + seq![c];
    assert(x.drop_last() =~= a);
    assert(x.last() == c);
    assert(split_acc(x, c) == (split_acc(a, c).0.push(split_acc(a, c).1), Seq::<char>::empty()));
    lemma_split_acc_append(x, b, c);
    assert(Seq::<char>::empty() + b =~= b);
}

pub proof fn lemma_dec_char(d: nat)
    requires
        d < 10,
    ensures
        is_dec_digit(dec_char(d)),
        dec_digit_value(dec_char(d)) == d,
        dec_char(d) != '0' <==> d != 0,
        (dec_char(d) as u32) < 128,
{
}

/// The shortest decimal text reads back as its value, has no leading zero
/// and is as long as the value needs.
pub proof fn lemma_dec_text(n: nat)
    ensures
        dec_text(n).len() >= 1,
        all_dec(dec_text(n)),
        dec_value(dec_text(n)) == n,
        n >= 10 ==> dec_text(n)[0] != '0',
        n < 10 ==> dec_text(n).len() == 1,
        n < 100 ==> dec_text(n).len() <= 2,
        n < 1000 ==> dec_text(n).len() <= 3,
        n < 10000 ==> dec_text(n).len() <= 4,
        n < 100000 ==> dec_text(n).len() <= 5,
    decreases n,
{
    lemma_dec_char(n % 10);
    if n >= 10 {
        lemma_dec_text(n / 10);
        let t = dec_text(n / 10);
        let s = dec_text(n);
        assert(s == t.push(dec_char(n % 10)));
        assert(s.drop_last() =~= t);
        assert forall|i: int| 0 <= i < s.len() implies is_dec_digit(#[trigger] s[i]) by {
            if i < t.len() {
                assert(s[i] == t[i]);
            }
        }
        assert(s[0] == t[0]);
        assert(dec_value(s) == dec_value(t) * 10 + dec_digit_value(s.last()));
        assert(n == (n / 10) * 10 + n % 10) by (nonlinear_arith);
        assert(n < 100 ==> n / 10 < 10) by (nonlinear_arith);
        assert(n < 1000 ==> n / 10 < 100) by (nonlinear_arith);
        assert(n < 10000 ==> n / 10 < 1000) by (nonlinear_arith);
        assert(n < 100000 ==> n / 10 < 10000) by (nonlinear_arith);
        if n / 10 < 10 {
            lemma_dec_char(n / 10);
        }
    } else {
        lemma_dec_char(n);
        assert(dec_text(n).drop_last() =~= Seq::<char>::empty());
        assert(dec_value(dec_text(n)) == dec_value(Seq::<char>::empty()) * 10 + dec_digit_value(
            dec_char(n),
        ));
    }
}

pub proof fn lemma_hex_char(d: nat)
    requires
        d < 16,
    ensures
        is_hex_digit(hex_char(d)),
        hex_digit_value(hex_char(d)) == d,
        hex_char(d) != ':' && hex_char(d) != '.' && hex_char(d) != '[' && hex_char(d) != ']'
            && hex_char(d) != '@',
{
}

/// The shortest hex text reads back as its value and is as long as the
/// value needs.
pub proof fn lemma_hex_text(n: nat)
    ensures
        hex_text(n).len() >= 1,
        all_hex(hex_text(n)),
        hex_value(hex_text(n)) == n,
        n < 65536 ==> hex_text(n).len() <= 4,
        n < 4096 ==> hex_text(n).len() <= 3,
        n < 256 ==> hex_text(n).len() <= 2,
        n < 16 ==> hex_text(n).len() == 1,
    decreases n,
{
    lemma_hex_char(n % 16);
    if n >= 16 {
        lemma_hex_text(n / 16);
        let t = hex_text(n / 16);
        let s = hex_text(n);
        assert(s == t.push(hex_char(n % 16)));
        assert(s.drop_last() =~= t);
        assert forall|i: int| 0 <= i < s.len() implies is_hex_digit(#[trigger] s[i]) by {
            if i < t.len() {
                assert(s[i] == t[i]);
            }
        }
        assert(hex_value(s) == hex_value(t) * 16 + hex_digit_value(s.last()));
        assert(n == (n / 16) * 16 + n % 16) by (nonlinear_arith);
        assert(n < 256 ==> n / 16 < 16) by (nonlinear_arith);
        assert(n < 4096 ==> n / 16 < 256) by (nonlinear_arith);
        assert(n < 65536 ==> n / 16 < 4096) by (nonlinear_arith);
    } else {
        assert(hex_text(n).drop_last() =~= Seq::<char>::empty());
        assert(hex_value(hex_text(n)) == hex_value(Seq::<char>::empty()) * 16 + hex_digit_value(
            hex_char(n),
        ));
    }
}

} // verus!
