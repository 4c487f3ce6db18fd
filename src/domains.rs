//! The search space of codes matching a pattern: eight dimensions (century,
//! decade, year digit, month, day and the three identifier digits), each
//! with its list of candidate values, numbered by a mixed-radix counter.
use crate::calendar::{days_in_month, month_length};
use crate::codec::{
    century_of, check_char, checksum, from_separator, marker_at, marker_count, markers_of,
};
use crate::pattern::SsnPattern;
use crate::radix::{
    lemma_product_take, lemma_radix_decode, lemma_radix_high, lemma_radix_len, lemma_radix_step,
    product, radix_digits,
};
use crate::ssn::{check_number, code_text};
use vstd::arithmetic::div_mod::{lemma_fundamental_div_mod, lemma_fundamental_div_mod_converse};
use vstd::arithmetic::mul::lemma_mul_upper_bound;
use vstd::prelude::*;

verus! {

/// Whether the digit `d` agrees with the digit field `f`.
pub open spec fn fits(f: Option<u8>, d: int) -> bool {
    f matches Some(v) ==> v == d
}

/// A digit in `[lo, hi]` that agrees with `f`.
pub open spec fn digit_allowed(f: Option<u8>, lo: int, hi: int, d: int) -> bool {
    lo <= d <= hi && fits(f, d)
}

/// A two-digit number in `[lo, hi]` whose digits agree with `f1` and `f2`.
pub open spec fn number_allowed(f1: Option<u8>, f2: Option<u8>, lo: int, hi: int, n: int) -> bool {
    lo <= n <= hi && fits(f1, n / 10) && fits(f2, n % 10)
}

/// Centuries that the marker field admits.
pub open spec fn century_allowed(sep: Option<char>, c: int) -> bool {
    match sep {
        Some(s) => century_of(s) == Some(c),
        None => c == 1800 || c == 1900 || c == 2000,
    }
}

/// The lowest decade: under the marker `+` years start at 1850.
pub open spec fn decade_floor(sep: Option<char>) -> int {
    if sep == Some('+') {
        5
    } else {
        0
    }
}

/// Whether `v` lists, without repetition, exactly the values that `allowed`
/// admits.
pub open spec fn lists(v: Seq<usize>, allowed: spec_fn(int) -> bool) -> bool {
    &&& v.no_duplicates()
    &&& forall|x: usize| #[trigger] v.contains(x) <==> allowed(x as int)
}

/// Whether `v` is in strictly increasing order.
pub open spec fn increasing(v: Seq<usize>) -> bool {
    forall|i: int, j: int| 0 <= i < j < v.len() ==> v[i] < v[j]
}

/// One point of the search space.
#[derive(Copy, Clone, Debug, PartialEq, Eq, Structural)]
pub struct Candidate {
    pub century: usize,
    pub decade: usize,
    pub year_digit: usize,
    pub month: usize,
    pub day: usize,
    pub i1: usize,
    pub i2: usize,
    pub i3: usize,
}

impl Candidate {
    pub open spec fn year(self) -> int {
        self.century + 10 * self.decade + self.year_digit
    }

    pub open spec fn year_of_century(self) -> int {
        10 * self.decade + self.year_digit
    }

    pub open spec fn identifier(self) -> int {
        100 * self.i1 + 10 * self.i2 + self.i3
    }

    /// The year is not before 1850.
    pub open spec fn year_ok(self) -> bool {
        1850 <= self.year()
    }

    /// A real date from 1850 on and an individual number in `[2, 899]`.
    pub open spec fn valid(self) -> bool {
        &&& self.year_ok()
        &&& 1 <= self.month <= 12
        &&& 1 <= self.day <= month_length(self.month as int, self.year())
        &&& 2 <= self.identifier() <= 899
    }

    /// The check character of the candidate's nine digits.
    pub open spec fn check_symbol(self) -> char {
        check_char(
            check_number(
                self.day as int,
                self.month as int,
                self.year_of_century(),
                self.identifier(),
            ),
        )
    }

    /// Valid, and with the check character `check` if one is required.
    pub open spec fn accepted(self, check: Option<char>) -> bool {
        &&& self.valid()
        &&& (check matches Some(c) ==> self.check_symbol() == c)
    }

    /// The code text of the candidate with the marker `separator`.
    pub open spec fn text(self, separator: char) -> Seq<char> {
        code_text(
            self.day as int,
            self.month as int,
            self.year_of_century(),
            separator,
            self.identifier(),
        )
    }
}

impl Candidate {
    /// Each field within the range of its dimension.
    pub open spec fn in_range(self) -> bool {
        &&& self.century == 1800 || self.century == 1900 || self.century == 2000
        &&& self.decade <= 9
        &&& self.year_digit <= 9
        &&& 1 <= self.month <= 12
        &&& 1 <= self.day <= 31
        &&& self.i1 <= 8
        &&& self.i2 <= 9
        &&& self.i3 <= 9
    }

    /// Whether the candidate is valid and carries the required check
    /// character.
    pub fn is_accepted(&self, check: Option<char>) -> (r: bool)
        requires
            self.in_range(),
        ensures
            r == self.accepted(check),
    {
        let year = self.century + 10 * self.decade + self.year_digit;
        if year < 1850 {
            return false;
        }
        if self.day > days_in_month(self.month, year) {
            return false;
        }
        let identifier = 100 * self.i1 + 10 * self.i2 + self.i3;
        if identifier < 2 || identifier > 899 {
            return false;
        }
        match check {
            Some(c) => checksum(
                self.day * 10000000 + self.month * 100000 + (10 * self.decade + self.year_digit)
                    * 1000 + identifier,
            ) == c,
            None => true,
        }
    }
}

/// Counters between `t * block` and `(t + 1) * block` all have the quotient
/// `t`.
proof fn lemma_same_block(k: nat, j: nat, block: nat)
    requires
        block > 0,
    ensures
        k < (k / block + 1) * block,
        k <= j < (k / block + 1) * block ==> j / block == k / block,
{
    let t = k / block;
    lemma_fundamental_div_mod(k as int, block as int);
    assert(t * block <= k < t * block + block) by (nonlinear_arith)
        requires
            k == block * t + k % block,
            0 <= k % block < block,
    ;
    assert((t + 1) * block == t * block + block) by (nonlinear_arith);
    if k <= j < (t + 1) * block {
        lemma_fundamental_div_mod_converse(j as int, block as int, t as int, j - t * block);
    }
}

/// The candidate values of each dimension.
pub struct Domains {
    pub centuries: Vec<usize>,
    pub decades: Vec<usize>,
    pub year_digits: Vec<usize>,
    pub months: Vec<usize>,
    pub days: Vec<usize>,
    pub i1s: Vec<usize>,
    pub i2s: Vec<usize>,
    pub i3s: Vec<usize>,
}

/// The radices as natural numbers.
pub open spec fn nat_seq(v: Seq<usize>) -> Seq<nat> {
    v.map_values(|x: usize| x as nat)
}

/// Whether every value of `f` agrees with the digit `d`.
fn fits_digit(f: &Option<u8>, d: usize) -> (r: bool)
    ensures
        r == fits(*f, d as int),
{
    match f {
        Some(v) => *v as usize == d,
        None => true,
    }
}

/// The digits in `[lo, hi]` that agree with `f`, in increasing order.
fn digit_range(f: &Option<u8>, lo: usize, hi: usize) -> (v: Vec<usize>)
    requires
        lo <= hi <= 9,
    ensures
        lists(v@, |d: int| digit_allowed(*f, lo as int, hi as int, d)),
        increasing(v@),
        v.len() <= hi - lo + 1,
{
    let mut v: Vec<usize> = Vec::new();
    let mut d: usize = lo;
    while d <= hi
        invariant
            lo <= d <= hi + 1,
            hi <= 9,
            v.len() <= d - lo,
            forall|i: int, j: int| 0 <= i < j < v.len() ==> v[i] < v[j],
            forall|i: int| 0 <= i < v.len() ==> v[i] < d,
            forall|x: usize| #[trigger]
                v@.contains(x) <==> (x < d && digit_allowed(*f, lo as int, hi as int, x as int)),
        decreases hi + 1 - d,
    {
        if fits_digit(f, d) {
            let ghost before = v@;
            v.push(d);
            assert forall|x: usize| #[trigger] v@.contains(x) <==> (before.contains(x) || x == d) by {
                if v@.contains(x) {
                    let i = choose|i: int| 0 <= i < v@.len() && v@[i] == x;
                    if i < before.len() {
                        assert(before[i] == x);
                    }
                }
                if before.contains(x) {
                    let i = choose|i: int| 0 <= i < before.len() && before[i] == x;
                    assert(v@[i] == x);
                }
                if x == d {
                    assert(v@[v.len() - 1] == d);
                }
            }
        }
        assert forall|x: usize| #[trigger] v@.contains(x) <==> (x < d + 1 && digit_allowed(*f, lo as int, hi as int, x as int)) by {
            if x == d {
                assert(v@.contains(x) ==> digit_allowed(*f, lo as int, hi as int, x as int));
            }
        }
        d = d + 1;
    }
    v
}

/// The two-digit numbers in `[lo, hi]` whose digits agree with `f1` and
/// `f2`, in increasing order.
fn number_range(f1: &Option<u8>, f2: &Option<u8>, lo: usize, hi: usize) -> (v: Vec<usize>)
    requires
        lo <= hi <= 31,
    ensures
        lists(v@, |n: int| number_allowed(*f1, *f2, lo as int, hi as int, n)),
        increasing(v@),
        v.len() <= hi - lo + 1,
{
    let mut v: Vec<usize> = Vec::new();
    let mut n: usize = lo;
    while n <= hi
        invariant
            lo <= n <= hi + 1,
            hi <= 31,
            v.len() <= n - lo,
            forall|i: int, j: int| 0 <= i < j < v.len() ==> v[i] < v[j],
            forall|i: int| 0 <= i < v.len() ==> v[i] < n,
            forall|x: usize| #[trigger]
                v@.contains(x) <==> (x < n && number_allowed(
                    *f1,
                    *f2,
                    lo as int,
                    hi as int,
                    x as int,
                )),
        decreases hi + 1 - n,
    {
        if fits_digit(f1, n / 10) && fits_digit(f2, n % 10) {
            let ghost before = v@;
            v.push(n);
            assert forall|x: usize| #[trigger] v@.contains(x) <==> (before.contains(x) || x == n) by {
                if v@.contains(x) {
                    let i = choose|i: int| 0 <= i < v@.len() && v@[i] == x;
                    if i < before.len() {
                        assert(before[i] == x);
                    }
                }
                if before.contains(x) {
                    let i = choose|i: int| 0 <= i < before.len() && before[i] == x;
                    assert(v@[i] == x);
                }
                if x == n {
                    assert(v@[v.len() - 1] == n);
                }
            }
        }
        assert forall|x: usize| #[trigger] v@.contains(x) <==> (x < n + 1 && number_allowed(*f1, *f2, lo as int, hi as int, x as int)) by {
            if x == n {
                assert(v@.contains(x) ==> number_allowed(*f1, *f2, lo as int, hi as int, x as int));
            }
        }
        n = n + 1;
    }
    v
}

/// Candidate centuries: the one of a fixed marker, else all three.
pub fn century_range(sep: &Option<char>) -> (v: Vec<usize>)
    ensures
        lists(v@, |c: int| century_allowed(*sep, c)),
        increasing(v@),
        v.len() <= 3,
{
    match sep {
        Some(c) => match from_separator(c) {
            Ok(v) => {
                let r = vec![v];
                assert(r@ =~= seq![v]);
                r
            },
            Err(_) => {
                let r: Vec<usize> = Vec::new();
                r
            },
        },
        None => {
            let r = vec![1800usize, 1900usize, 2000usize];
            assert(r@ =~= seq![1800usize, 1900usize, 2000usize]);
            r
        },
    }
}

/// The markers that a point of `century` may be written with: the fixed
/// marker of the pattern, or else every marker of the century.
pub open spec fn separator_choices(sep: Option<char>, century: int) -> Seq<char> {
    match sep {
        Some(c) => seq![c],
        None => markers_of(century),
    }
}

/// The markers that a point of `century` may be written with.
pub fn separator_range(sep: &Option<char>, century: usize) -> (v: Vec<char>)
    ensures
        v@ == separator_choices(*sep, century as int),
{
    match sep {
        Some(c) => {
            let v = vec![*c];
            assert(v@ =~= seq![*c]);
            v
        },
        None => {
            let n = marker_count(century);
            let mut v: Vec<char> = Vec::new();
            let mut i: usize = 0;
            while i < n
                invariant
                    i <= n,
                    n == markers_of(century as int).len(),
                    v@ == markers_of(century as int).take(i as int),
                decreases n - i,
            {
                v.push(marker_at(century, i));
                i = i + 1;
                assert(v@ =~= markers_of(century as int).take(i as int));
            }
            assert(v@ =~= markers_of(century as int));
            v
        },
    }
}

/// Candidate decades: the fixed digit, or any from the lowest the marker
/// allows.
pub fn decade_range(y1: &Option<u8>, sep: &Option<char>) -> (v: Vec<usize>)
    ensures
        lists(v@, |d: int| digit_allowed(*y1, decade_floor(*sep), 9, d)),
        increasing(v@),
        v.len() <= 10,
{
    let floor: usize = match sep {
        Some('+') => 5,
        _ => 0,
    };
    digit_range(y1, floor, 9)
}

/// Candidate last digits of the year.
pub fn y2_range(y2: &Option<u8>) -> (v: Vec<usize>)
    ensures
        lists(v@, |d: int| digit_allowed(*y2, 0, 9, d)),
        increasing(v@),
        v.len() <= 10,
{
    digit_range(y2, 0, 9)
}

/// Candidate months, as far as their fixed digits allow.
pub fn m_range(m1: &Option<u8>, m2: &Option<u8>) -> (v: Vec<usize>)
    ensures
        lists(v@, |m: int| number_allowed(*m1, *m2, 1, 12, m)),
        increasing(v@),
        v.len() <= 12,
{
    number_range(m1, m2, 1, 12)
}

/// Candidate days of a month, as far as their fixed digits allow; the
/// month's length is checked per point.
pub fn d_range(d1: &Option<u8>, d2: &Option<u8>) -> (v: Vec<usize>)
    ensures
        lists(v@, |d: int| number_allowed(*d1, *d2, 1, 31, d)),
        increasing(v@),
        v.len() <= 31,
{
    number_range(d1, d2, 1, 31)
}

/// A permutation of a list keeps what it lists.
proof fn lemma_permuted_lists(a: Seq<usize>, b: Seq<usize>, allowed: spec_fn(int) -> bool)
    requires
        lists(a, allowed),
        a.to_multiset() == b.to_multiset(),
    ensures
        lists(b, allowed),
        b.len() == a.len(),
{
    a.to_multiset_ensures();
    b.to_multiset_ensures();
    a.lemma_multiset_has_no_duplicates();
    assert forall|x: usize| b.to_multiset().contains(x) implies b.to_multiset().count(x) == 1 by {
        assert(a.to_multiset().contains(x));
    }
    b.lemma_multiset_has_no_duplicates_conv();
    assert forall|x: usize| #[trigger] b.contains(x) <==> allowed(x as int) by {
        assert(b.contains(x) <==> b.to_multiset().count(x) > 0);
        assert(a.contains(x) <==> a.to_multiset().count(x) > 0);
    }
}

/// Shuffles a list of candidates.
fn shuffle_list(v: &mut Vec<usize>, allowed: Ghost<spec_fn(int) -> bool>)
    requires
        lists(old(v)@, allowed@),
    ensures
        lists(final(v)@, allowed@),
        final(v)@.len() == old(v)@.len(),
{
    let ghost before = v@;
    crate::random::shuffle(v);
    proof {
        lemma_permuted_lists(before, v@, allowed@);
    }
}

/// Decodes the counter `k` into one index per radix.
fn decode(k: usize, sizes: &Vec<usize>) -> (idx: Vec<usize>)
    requires
        forall|i: int| 0 <= i < sizes.len() ==> #[trigger] sizes[i] > 0,
    ensures
        idx.len() == sizes.len(),
        forall|i: int|
            0 <= i < idx.len() ==> #[trigger] idx[i] == radix_digits(k as nat, nat_seq(sizes@))[i],
{
    let ghost s = nat_seq(sizes@);
    let mut idx: Vec<usize> = Vec::new();
    let mut q: usize = k;
    let mut j: usize = 0;
    proof {
        assert forall|i: int| 0 <= i < s.len() implies #[trigger] s[i] > 0 by {
            assert(sizes[i] > 0);
        }
        lemma_radix_len(k as nat, s);
        assert(s.skip(0) =~= s);
        assert(radix_digits(k as nat, s).subrange(0, s.len() as int) =~= radix_digits(k as nat, s));
    }
    while j < sizes.len()
        invariant
            j <= sizes.len(),
            idx.len() == j,
            s == nat_seq(sizes@),
            s.len() == sizes.len(),
            forall|i: int| 0 <= i < s.len() ==> #[trigger] s[i] > 0,
            radix_digits(k as nat, s).len() == s.len(),
            forall|i: int| 0 <= i < j ==> #[trigger] idx[i] == radix_digits(k as nat, s)[i],
            radix_digits(k as nat, s).subrange(j as int, s.len() as int) == radix_digits(
                q as nat,
                s.skip(j as int),
            ),
        decreases sizes.len() - j,
    {
        let n = sizes[j];
        proof {
            assert(s[j as int] == n);
            lemma_radix_step(q as nat, s, j as int);
            let whole = radix_digits(k as nat, s);
            assert(whole[j as int] == whole.subrange(j as int, s.len() as int)[0]);
            assert(whole.subrange(j as int + 1, s.len() as int) =~= whole.subrange(
                j as int,
                s.len() as int,
            ).drop_first());
            assert((seq![q as nat % n as nat] + radix_digits(
                q as nat / n as nat,
                s.skip(j + 1),
            )).drop_first() =~= radix_digits(q as nat / n as nat, s.skip(j + 1)));
        }
        idx.push(q % n);
        q = q / n;
        j = j + 1;
    }
    idx
}

impl Domains {
    /// Each list holds exactly the values that `p` admits in its dimension.
    pub open spec fn covers(&self, p: SsnPattern) -> bool {
        &&& lists(self.centuries@, |c: int| century_allowed(p.sep, c))
        &&& lists(self.decades@, |d: int| digit_allowed(p.y1, decade_floor(p.sep), 9, d))
        &&& lists(self.year_digits@, |d: int| digit_allowed(p.y2, 0, 9, d))
        &&& lists(self.months@, |m: int| number_allowed(p.m1, p.m2, 1, 12, m))
        &&& lists(self.days@, |d: int| number_allowed(p.d1, p.d2, 1, 31, d))
        &&& lists(self.i1s@, |d: int| digit_allowed(p.i1, 0, 8, d))
        &&& lists(self.i2s@, |d: int| digit_allowed(p.i2, 0, 9, d))
        &&& lists(self.i3s@, |d: int| digit_allowed(p.i3, 0, 9, d))
    }

    /// The lists are no longer than their dimensions.
    pub open spec fn bounded(&self) -> bool {
        &&& self.centuries.len() <= 3
        &&& self.decades.len() <= 10
        &&& self.year_digits.len() <= 10
        &&& self.months.len() <= 12
        &&& self.days.len() <= 31
        &&& self.i1s.len() <= 9
        &&& self.i2s.len() <= 10
        &&& self.i3s.len() <= 10
    }

    /// The search space of the pattern `p`.
    pub open spec fn wf(&self, p: SsnPattern) -> bool {
        self.covers(p) && self.bounded()
    }

    /// The radices, innermost dimension (last identifier digit) first.
    pub open spec fn sizes(&self) -> Seq<nat> {
        seq![
            self.i3s@.len(),
            self.i2s@.len(),
            self.i1s@.len(),
            self.days@.len(),
            self.months@.len(),
            self.year_digits@.len(),
            self.decades@.len(),
            self.centuries@.len(),
        ]
    }

    /// The number of points of the space.
    pub open spec fn total(&self) -> nat {
        product(self.sizes())
    }

    /// The number of points that share one year: the product of the five
    /// inner radices.
    pub open spec fn year_block(&self) -> nat {
        product(self.sizes().take(5))
    }

    /// The point that the counter `k` stands for.
    pub open spec fn candidate(&self, k: nat) -> Candidate {
        let d = radix_digits(k, self.sizes());
        Candidate {
            century: self.centuries@[d[7] as int],
            decade: self.decades@[d[6] as int],
            year_digit: self.year_digits@[d[5] as int],
            month: self.months@[d[4] as int],
            day: self.days@[d[3] as int],
            i1: self.i1s@[d[2] as int],
            i2: self.i2s@[d[1] as int],
            i3: self.i3s@[d[0] as int],
        }
    }

    /// Every list in increasing order.
    pub open spec fn ordered(&self) -> bool {
        &&& increasing(self.centuries@)
        &&& increasing(self.decades@)
        &&& increasing(self.year_digits@)
        &&& increasing(self.months@)
        &&& increasing(self.days@)
        &&& increasing(self.i1s@)
        &&& increasing(self.i2s@)
        &&& increasing(self.i3s@)
    }

    /// The candidates of `p`, each list in increasing order.
    pub fn new(p: &SsnPattern) -> (d: Domains)
        ensures
            d.wf(*p),
            d.ordered(),
    {
        Domains {
            centuries: century_range(&p.sep),
            decades: decade_range(&p.y1, &p.sep),
            year_digits: y2_range(&p.y2),
            months: m_range(&p.m1, &p.m2),
            days: d_range(&p.d1, &p.d2),
            i1s: digit_range(&p.i1, 0, 8),
            i2s: digit_range(&p.i2, 0, 9),
            i3s: digit_range(&p.i3, 0, 9),
        }
    }

    /// The candidates of `p`, each list in a random order.
    pub fn shuffled(p: &SsnPattern) -> (d: Domains)
        ensures
            d.wf(*p),
    {
        let mut d = Domains::new(p);
        shuffle_list(&mut d.centuries, Ghost(|c: int| century_allowed(p.sep, c)));
        shuffle_list(&mut d.decades, Ghost(|x: int| digit_allowed(p.y1, decade_floor(p.sep), 9, x)));
        shuffle_list(&mut d.year_digits, Ghost(|x: int| digit_allowed(p.y2, 0, 9, x)));
        shuffle_list(&mut d.months, Ghost(|m: int| number_allowed(p.m1, p.m2, 1, 12, m)));
        shuffle_list(&mut d.days, Ghost(|x: int| number_allowed(p.d1, p.d2, 1, 31, x)));
        shuffle_list(&mut d.i1s, Ghost(|x: int| digit_allowed(p.i1, 0, 8, x)));
        shuffle_list(&mut d.i2s, Ghost(|x: int| digit_allowed(p.i2, 0, 9, x)));
        shuffle_list(&mut d.i3s, Ghost(|x: int| digit_allowed(p.i3, 0, 9, x)));
        d
    }

    /// The number of points and the number of points per year.
    pub fn counts(&self) -> (r: (usize, usize))
        requires
            self.bounded(),
        ensures
            r.0 == self.total(),
            r.1 == self.year_block(),
            r.0 <= 100440000,
            r.0 == r.1 * (self.year_digits.len() * self.decades.len() * self.centuries.len()),
    {
        let a = self.i3s.len();
        let b = self.i2s.len();
        let c = self.i1s.len();
        let d = self.days.len();
        let e = self.months.len();
        let f = self.year_digits.len();
        let g = self.decades.len();
        let h = self.centuries.len();
        proof {
            let s = self.sizes();
            assert(s.take(0) =~= Seq::<nat>::empty());
            assert(product(Seq::<nat>::empty()) == 1);
            lemma_product_take(s, 0);
            lemma_product_take(s, 1);
            lemma_product_take(s, 2);
            lemma_product_take(s, 3);
            lemma_product_take(s, 4);
            lemma_product_take(s, 5);
            lemma_product_take(s, 6);
            lemma_product_take(s, 7);
            assert(s.take(8) =~= s);
            lemma_mul_upper_bound(a as int, 10, b as int, 10);
            lemma_mul_upper_bound((a * b) as int, 100, c as int, 9);
            lemma_mul_upper_bound((a * b * c) as int, 900, d as int, 31);
            lemma_mul_upper_bound((a * b * c * d) as int, 27900, e as int, 12);
            lemma_mul_upper_bound((a * b * c * d * e) as int, 334800, f as int, 10);
            lemma_mul_upper_bound((a * b * c * d * e * f) as int, 3348000, g as int, 10);
            lemma_mul_upper_bound((a * b * c * d * e * f * g) as int, 33480000, h as int, 3);
        }
        let block = a * b * c * d * e;
        assert(block * f * g * h == block * (f * g * h)) by (nonlinear_arith);
        (block * f * g * h, block)
    }

    /// The point that the counter `k` stands for.
    pub fn candidate_at(&self, k: usize) -> (c: Candidate)
        requires
            k < self.total(),
        ensures
            c == self.candidate(k as nat),
    {
        let sizes = vec![
            self.i3s.len(),
            self.i2s.len(),
            self.i1s.len(),
            self.days.len(),
            self.months.len(),
            self.year_digits.len(),
            self.decades.len(),
            self.centuries.len(),
        ];
        proof {
            assert(nat_seq(sizes@) =~= self.sizes());
            lemma_radix_decode(k as nat, self.sizes());
            let ds = radix_digits(k as nat, self.sizes());
            assert forall|i: int| 0 <= i < sizes.len() implies #[trigger] sizes[i] > 0 by {
                assert(ds[i] < self.sizes()[i]);
            }
            assert(ds[0] < self.sizes()[0]);
            assert(ds[1] < self.sizes()[1]);
            assert(ds[2] < self.sizes()[2]);
            assert(ds[3] < self.sizes()[3]);
            assert(ds[4] < self.sizes()[4]);
            assert(ds[5] < self.sizes()[5]);
            assert(ds[6] < self.sizes()[6]);
            assert(ds[7] < self.sizes()[7]);
        }
        let idx = decode(k, &sizes);
        Candidate {
            century: self.centuries[idx[7]],
            decade: self.decades[idx[6]],
            year_digit: self.year_digits[idx[5]],
            month: self.months[idx[4]],
            day: self.days[idx[3]],
            i1: self.i1s[idx[2]],
            i2: self.i2s[idx[1]],
            i3: self.i3s[idx[0]],
        }
    }

    /// Every point of a space of `p` lies within the ranges.
    pub proof fn lemma_candidate_in_range(&self, p: SsnPattern, k: nat)
        requires
            self.wf(p),
            k < self.total(),
        ensures
            self.candidate(k).in_range(),
            self.centuries@.contains(self.candidate(k).century),
            self.decades@.contains(self.candidate(k).decade),
            self.year_digits@.contains(self.candidate(k).year_digit),
            self.months@.contains(self.candidate(k).month),
            self.days@.contains(self.candidate(k).day),
            self.i1s@.contains(self.candidate(k).i1),
            self.i2s@.contains(self.candidate(k).i2),
            self.i3s@.contains(self.candidate(k).i3),
    {
        lemma_radix_decode(k, self.sizes());
        let ds = radix_digits(k, self.sizes());
        assert(ds[0] < self.sizes()[0]);
        assert(ds[1] < self.sizes()[1]);
        assert(ds[2] < self.sizes()[2]);
        assert(ds[3] < self.sizes()[3]);
        assert(ds[4] < self.sizes()[4]);
        assert(ds[5] < self.sizes()[5]);
        assert(ds[6] < self.sizes()[6]);
        assert(ds[7] < self.sizes()[7]);
        let c = self.candidate(k);
        assert(self.centuries@.contains(c.century));
        assert(self.decades@.contains(c.decade));
        assert(self.year_digits@.contains(c.year_digit));
        assert(self.months@.contains(c.month));
        assert(self.days@.contains(c.day));
        assert(self.i1s@.contains(c.i1));
        assert(self.i2s@.contains(c.i2));
        assert(self.i3s@.contains(c.i3));
    }

    /// Points with the same quotient by the year block share their year.
    pub proof fn lemma_year_block(&self, j: nat, k: nat)
        requires
            j < self.total(),
            k < self.total(),
            j / self.year_block() == k / self.year_block(),
        ensures
            self.candidate(j).year() == self.candidate(k).year(),
    {
        let s = self.sizes();
        lemma_radix_decode(k, s);
        let dk = radix_digits(k, s);
        assert forall|i: int| 0 <= i < s.len() implies #[trigger] s[i] > 0 by {
            assert(dk[i] < s[i]);
        }
        lemma_radix_high(j, s, 5);
        lemma_radix_high(k, s, 5);
        let dj = radix_digits(j, s);
        lemma_radix_len(j, s);
        lemma_radix_len(k, s);
        assert(dj[5] == dj.subrange(5, 8)[0]);
        assert(dk[5] == dk.subrange(5, 8)[0]);
        assert(dj[6] == dj.subrange(5, 8)[1]);
        assert(dk[6] == dk.subrange(5, 8)[1]);
        assert(dj[7] == dj.subrange(5, 8)[2]);
        assert(dk[7] == dk.subrange(5, 8)[2]);
    }

    /// The first counter in `[start, end)` whose point is accepted with the
    /// check character `check`, if any.
    pub fn find(&self, p: &SsnPattern, check: Option<char>, start: usize, end: usize) -> (r:
        Option<usize>)
        requires
            self.wf(*p),
            start <= end <= self.total(),
        ensures
            r matches Some(k) ==> start <= k < end && self.candidate(k as nat).accepted(check)
                && forall|j: nat| start <= j < k ==> !#[trigger] self.candidate(j).accepted(check),
            r is None ==> forall|j: nat|
                start <= j < end ==> !#[trigger] self.candidate(j).accepted(check),
    {
        let (total, block) = self.counts();
        let mut k: usize = start;
        while k < end
            invariant
                start <= k <= total,
                end <= total,
                total == self.total(),
                block == self.year_block(),
                self.wf(*p),
                total == block * (self.year_digits.len() * self.decades.len()
                    * self.centuries.len()),
                forall|j: nat| start <= j < k && j < end ==> !#[trigger] self.candidate(j).accepted(check),
            decreases total - k,
        {
            proof {
                self.lemma_candidate_in_range(*p, k as nat);
            }
            let c = self.candidate_at(k);
            if c.century + 10 * c.decade + c.year_digit < 1850 {
                let rest: Ghost<nat> = Ghost((self.year_digits.len() * self.decades.len()
                    * self.centuries.len()) as nat);
                assert(block > 0) by {
                    if block == 0 {
                        assert(total == 0 * rest@);
                    }
                }
                proof {
                    assert(k / block < rest@) by {
                        vstd::arithmetic::div_mod::lemma_multiply_divide_lt(
                            k as int,
                            block as int,
                            rest@ as int,
                        );
                    }
                    assert((k / block + 1) * block <= rest@ * block) by (nonlinear_arith)
                        requires
                            k / block + 1 <= rest@,
                            block > 0,
                    ;
                    assert(rest@ * block == block * rest@) by (nonlinear_arith);
                    assert forall|j: nat| k <= j < (k / block + 1) * block implies !#[trigger] self.candidate(
                        j,
                    ).accepted(check) by {
                        lemma_same_block(k as nat, j, block as nat);
                        if j < total {
                            self.lemma_year_block(j, k as nat);
                        }
                    }
                    lemma_same_block(k as nat, k as nat, block as nat);
                }
                let next = (k / block + 1) * block;
                k = next;
            } else if c.is_accepted(check) {
                return Some(k);
            } else {
                k = k + 1;
            }
        }
        None
    }
}

} // verus!
