//! Tags of two or more letters, in shortlex order: shorter tags first, and
//! tags of one length in ascending lexicographic order. So "aa", "ab", ...,
//! "zz" (all two-letter tags, lexicographically ascending), then "aaa", ...,
//! "zzz", and so on. An unbounded sequence cannot both start at "aa" and stay
//! lexicographically ascending past "zz" without tags like "zza"; shortlex
//! keeps tags as short as possible instead.

use vstd::prelude::*;

verus! {

/// The letters tags are made of, in order.
pub open spec fn letters() -> Seq<char> {
    seq![
        'a', 'b', 'c', 'd', 'e', 'f', 'g', 'h', 'i', 'j', 'k', 'l', 'm',
        'n', 'o', 'p', 'q', 'r', 's', 't', 'u', 'v', 'w', 'x', 'y', 'z',
    ]
}

/// How many tags a generator can issue: one for each value of its counter.
pub const TAG_COUNT: u64 = 0xFFFF_FFFF_FFFF_FFFF;

/// 26 to the power `w`.
pub open spec fn pow26(w: nat) -> nat
    decreases w,
{
    if w == 0 {
        1
    } else {
        26 * pow26((w - 1) as nat)
    }
}

/// `m` written with `w` letter digits in base 26, most significant first.
pub open spec fn digits(m: nat, w: nat) -> Seq<char>
    decreases w,
{
    if w == 0 {
        Seq::empty()
    } else {
        digits(m / 26, (w - 1) as nat).push(letters()[(m % 26) as int])
    }
}

/// The `n`-th tag of at least `w` letters: the `w`-letter tags come first, in
/// ascending lexicographic order, then those one letter longer.
pub open spec fn tag_of(n: nat, w: nat) -> Seq<char>
    decreases n,
{
    if n < pow26(w) || pow26(w) == 0 {
        digits(n, w)
    } else {
        tag_of((n - pow26(w)) as nat, w + 1)
    }
}

/// The tag issued `n`-th: "aa" to "zz", then "aaa" to "zzz", and so on.
pub open spec fn tag_at(n: nat) -> Seq<char> {
    tag_of(n, 2)
}

proof fn lemma_pow26_positive(w: nat)
    ensures
        pow26(w) > 0,
    decreases w,
{
    if w > 0 {
        lemma_pow26_positive((w - 1) as nat);
    }
}

proof fn lemma_digits_len(m: nat, w: nat)
    ensures
        digits(m, w).len() == w,
    decreases w,
{
    if w > 0 {
        lemma_digits_len(m / 26, (w - 1) as nat);
    }
}

proof fn lemma_digits_injective(a: nat, b: nat, w: nat)
    requires
        a < pow26(w),
        b < pow26(w),
        digits(a, w) == digits(b, w),
    ensures
        a == b,
    decreases w,
{
    if w > 0 {
        let p = pow26((w - 1) as nat);
        let da = digits(a / 26, (w - 1) as nat);
        let db = digits(b / 26, (w - 1) as nat);
        assert(digits(a, w).drop_last() =~= da);
        assert(digits(b, w).drop_last() =~= db);
        assert(letters()[(a % 26) as int] == digits(a, w).last());
        assert(letters()[(a % 26) as int] == letters()[(b % 26) as int]);
        assert(a % 26 == b % 26);
        assert(a / 26 < p) by (nonlinear_arith)
            requires
                a < 26 * p,
        ;
        assert(b / 26 < p) by (nonlinear_arith)
            requires
                b < 26 * p,
        ;
        lemma_digits_injective(a / 26, b / 26, (w - 1) as nat);
        assert(a == (a / 26) * 26 + a % 26) by (nonlinear_arith);
        assert(b == (b / 26) * 26 + b % 26) by (nonlinear_arith);
    }
}

pub proof fn lemma_tag_of_len(n: nat, w: nat)
    ensures
        tag_of(n, w).len() >= w,
        n < pow26(w) ==> tag_of(n, w).len() == w,
    decreases n,
{
    lemma_pow26_positive(w);
    if n < pow26(w) {
        lemma_digits_len(n, w);
    } else {
        lemma_tag_of_len((n - pow26(w)) as nat, w + 1);
    }
}

proof fn lemma_tag_of_injective(a: nat, b: nat, w: nat)
    requires
        tag_of(a, w) == tag_of(b, w),
    ensures
        a == b,
    decreases a + b,
{
    lemma_pow26_positive(w);
    let p = pow26(w);
    if a < p && b < p {
        lemma_digits_injective(a, b, w);
    } else if a < p {
        lemma_tag_of_len(a, w);
        lemma_tag_of_len((b - p) as nat, w + 1);
    } else if b < p {
        lemma_tag_of_len(b, w);
        lemma_tag_of_len((a - p) as nat, w + 1);
    } else {
        lemma_tag_of_injective((a - p) as nat, (b - p) as nat, w + 1);
    }
}

/// The single letter at index `i` of the alphabet, as a string.
pub fn letter(i: usize) -> (r: String)
    requires
        i < 26,
    ensures
        r@ == seq![letters()[i as int]],
{
    let all = "abcdefghijklmnopqrstuvwxyz";
    proof {
        reveal_strlit("abcdefghijklmnopqrstuvwxyz");
        assert(all@ =~= letters());
    }
    let one = all.substring_char(i, i + 1);
    assert(one@ =~= seq![letters()[i as int]]);
    String::from_str(one)
}

/// Distinct issue indices give distinct tags.
pub proof fn lemma_tag_at_injective(a: nat, b: nat)
    requires
        a != b,
    ensures
        tag_at(a) != tag_at(b),
{
    if tag_at(a) == tag_at(b) {
        lemma_tag_of_injective(a, b, 2);
    }
}

/// The letters of `m` in base 26, `w` of them.
fn digits_string(m: u128, w: usize) -> (r: String)
    ensures
        r@ == digits(m as nat, w as nat),
    decreases w,
{
    if w == 0 {
        String::new()
    } else {
        let mut r = digits_string(m / 26, w - 1);
        let last = letter((m % 26) as usize);
        r.append(last.as_str());
        r
    }
}

/// The tag issued `n`-th.
fn tag_for(n: u64) -> (r: String)
    ensures
        r@ == tag_at(n as nat),
{
    let mut m: u128 = n as u128;
    let mut w: usize = 2;
    let mut p: u128 = 676;
    proof {
        reveal_with_fuel(pow26, 3);
    }
    while m >= p
        invariant
            2 <= w <= 14,
            p == pow26(w as nat),
            m <= n,
            tag_of(m as nat, w as nat) == tag_at(n as nat),
        decreases m,
    {
        proof {
            lemma_pow26_positive(w as nat);
            if w == 14 {
                reveal_with_fuel(pow26, 15);
                assert(p == 64509974703297150976u128);
            }
        }
        m = m - p;
        p = p * 26;
        w = w + 1;
    }
    digits_string(m, w)
}

/// Issues the tags in shortlex order, each once. A fresh generator starts
/// again at "aa".
pub struct TagGenerator {
    index: u64,
}

impl TagGenerator {
    /// How many tags this generator has issued.
    pub closed spec fn issued(&self) -> nat {
        self.index as nat
    }

    pub fn new() -> (g: TagGenerator)
        ensures
            g.issued() == 0,
    {
        TagGenerator { index: 0 }
    }

    /// The next tag; `None` only once the counter is spent.
    pub fn next(&mut self) -> (t: Option<String>)
        ensures
            old(self).issued() < TAG_COUNT ==> t is Some && t->0@ == tag_at(old(self).issued())
                && final(self).issued() == old(self).issued() + 1,
            old(self).issued() >= TAG_COUNT ==> t is None && final(self).issued() == old(
                self,
            ).issued(),
    {
        if self.index < TAG_COUNT {
            let tag = tag_for(self.index);
            self.index = self.index + 1;
            Some(tag)
        } else {
            None
        }
    }
}

} // verus!
