//! The lazy enumerator: the codes of a pattern's shuffled space, in counter
//! order, starting over once the space is exhausted.
use crate::domains::{separator_range, Domains};
use crate::generate::{lemma_found_code, lemma_marker_for, marker_for};
use crate::pattern::{matches_pattern, SsnPattern};
use crate::radix::{lemma_radix_decode, radix_digits};
use crate::random::random_below;
use crate::ssn::{format_code, lemma_digit_char, spec_parse, Ssn};
use vstd::prelude::*;

verus! {

/// An enumerator of the codes that match a pattern.
pub struct SsnIterator {
    /// The shuffled candidate values of each dimension.
    pub domains: Domains,
    /// The pattern enumerated.
    pub pattern: SsnPattern,
    /// Which marker of a century is written where the pattern leaves the
    /// marker open.
    pub marker: usize,
    /// The number of points of the space.
    pub total: usize,
    /// The counter to try next.
    pub offset: usize,
}

impl SsnIterator {
    pub open spec fn wf(&self) -> bool {
        &&& self.domains.wf(self.pattern)
        &&& self.total == self.domains.total()
        &&& (self.offset < self.total || self.offset == 0)
    }

    /// Whether the counter `k` stands for a code to emit.
    pub open spec fn yields(&self, k: nat) -> bool {
        k < self.total && self.domains.candidate(k).accepted(self.pattern.check)
    }

    /// The code emitted for the counter `k`.
    pub open spec fn code_at(&self, k: nat) -> Seq<char> {
        self.domains.candidate(k).text(
            marker_for(self.pattern.sep, self.domains.candidate(k).century as int, self.marker as int),
        )
    }

    /// Whether `j` comes before `k` in a cycle that starts at the offset.
    pub open spec fn tried_before(&self, j: nat, k: nat) -> bool {
        if self.offset <= k {
            self.offset <= j < k
        } else {
            self.offset <= j < self.total || j < k
        }
    }

    /// An enumerator of the codes matching `pattern`, over its space in a
    /// random order.
    pub fn new(pattern: &SsnPattern) -> (it: SsnIterator)
        ensures
            it.wf(),
            it.pattern == *pattern,
            it.offset == 0,
    {
        let domains = Domains::shuffled(pattern);
        let (total, _) = domains.counts();
        let marker = random_below(6);
        SsnIterator { domains, pattern: *pattern, marker, total, offset: 0 }
    }

    /// The first counter from the offset on, going round, that stands for a
    /// code.
    fn next_counter(&self) -> (r: Option<usize>)
        requires
            self.wf(),
        ensures
            r matches Some(k) ==> self.yields(k as nat) && forall|j: nat|
                self.tried_before(j, k as nat) ==> !#[trigger] self.yields(j),
            r is None ==> forall|j: nat| !#[trigger] self.yields(j),
    {
        let check = self.pattern.check;
        match self.domains.find(&self.pattern, check, self.offset, self.total) {
            Some(k) => Some(k),
            None => match self.domains.find(&self.pattern, check, 0, self.offset) {
                Some(k) => Some(k),
                None => {
                    assert forall|j: nat| !#[trigger] self.yields(j) by {
                        if j < self.offset {
                        } else if j < self.total {
                        }
                    }
                    None
                },
            },
        }
    }

    /// The next code: that of the first counter from the offset on, going
    /// round, whose point is a valid code of the pattern. `None` when the
    /// pattern has no valid code.
    pub fn next(&mut self) -> (r: Option<String>)
        requires
            old(self).wf(),
        ensures
            final(self).wf(),
            final(self).domains == old(self).domains,
            final(self).pattern == old(self).pattern,
            final(self).marker == old(self).marker,
            final(self).total == old(self).total,
            r is None <==> forall|k: nat| !#[trigger] old(self).yields(k),
            r is None ==> final(self).offset == old(self).offset,
            r matches Some(s) ==> exists|k: nat|
                #[trigger] old(self).yields(k) && (forall|j: nat|
                    old(self).tried_before(j, k) ==> !#[trigger] old(self).yields(j)) && s@
                    == old(self).code_at(k) && final(self).offset == (k + 1) % (old(
                    self,
                ).total as nat),
            r matches Some(s) ==> matches_pattern(old(self).pattern, s@) && spec_parse(s@) is Ok,
    {
        let k = match self.next_counter() {
            Some(k) => k,
            None => {
                return None;
            },
        };
        proof {
            self.domains.lemma_candidate_in_range(self.pattern, k as nat);
            lemma_found_code(&self.domains, self.pattern, self.pattern, k as nat, self.marker as int);
        }
        let c = self.domains.candidate_at(k);
        let separators = separator_range(&self.pattern.sep, c.century);
        let separator = separators[self.marker % separators.len()];
        let code = format_code(
            c.day,
            c.month,
            10 * c.decade + c.year_digit,
            separator,
            100 * c.i1 + 10 * c.i2 + c.i3,
        );
        self.offset = if k + 1 == self.total {
            0
        } else {
            k + 1
        };
        proof {
            if k + 1 < self.total {
                vstd::arithmetic::div_mod::lemma_small_mod((k + 1) as nat, self.total as nat);
            } else {
                vstd::arithmetic::div_mod::lemma_mod_self_0(self.total as int);
            }
            assert(self.offset == ((k as nat) + 1) % (old(self).total as nat));
            assert(code@ == old(self).code_at(k as nat));
        }
        Some(code)
    }
}

/// Within one cycle the enumerator emits no code twice: two different
/// counters that both stand for codes stand for different codes.
pub proof fn lemma_no_repeat(it: &SsnIterator, j: nat, k: nat)
    requires
        it.wf(),
        it.yields(j),
        it.yields(k),
        j != k,
    ensures
        it.code_at(j) != it.code_at(k),
{
    let d = it.domains;
    let cj = d.candidate(j);
    let ck = d.candidate(k);
    if it.code_at(j) == it.code_at(k) {
        d.lemma_candidate_in_range(it.pattern, j);
        d.lemma_candidate_in_range(it.pattern, k);
        let tj = it.code_at(j);
        let tk = it.code_at(k);
        lemma_digit_char(cj.day as int / 10);
        lemma_digit_char(cj.day as int % 10);
        lemma_digit_char(ck.day as int / 10);
        lemma_digit_char(ck.day as int % 10);
        lemma_digit_char(cj.month as int / 10);
        lemma_digit_char(cj.month as int % 10);
        lemma_digit_char(ck.month as int / 10);
        lemma_digit_char(ck.month as int % 10);
        lemma_digit_char(cj.decade as int);
        lemma_digit_char(cj.year_digit as int);
        lemma_digit_char(ck.decade as int);
        lemma_digit_char(ck.year_digit as int);
        lemma_digit_char(cj.i1 as int);
        lemma_digit_char(cj.i2 as int);
        lemma_digit_char(cj.i3 as int);
        lemma_digit_char(ck.i1 as int);
        lemma_digit_char(ck.i2 as int);
        lemma_digit_char(ck.i3 as int);
        assert(tj[0] == tk[0] && tj[1] == tk[1] && tj[2] == tk[2] && tj[3] == tk[3]);
        assert(tj[4] == tk[4] && tj[5] == tk[5] && tj[6] == tk[6]);
        assert(tj[7] == tk[7] && tj[8] == tk[8] && tj[9] == tk[9]);
        assert(cj.year_of_century() / 10 == cj.decade);
        assert(cj.year_of_century() % 10 == cj.year_digit);
        assert(ck.year_of_century() / 10 == ck.decade);
        assert(ck.year_of_century() % 10 == ck.year_digit);
        assert(cj.identifier() / 100 == cj.i1 && cj.identifier() / 10 % 10 == cj.i2
            && cj.identifier() % 10 == cj.i3);
        assert(ck.identifier() / 100 == ck.i1 && ck.identifier() / 10 % 10 == ck.i2
            && ck.identifier() % 10 == ck.i3);
        lemma_marker_for(it.pattern.sep, cj.century as int, it.marker as int);
        lemma_marker_for(it.pattern.sep, ck.century as int, it.marker as int);
        assert(cj == ck);
        let s = d.sizes();
        lemma_radix_decode(j, s);
        lemma_radix_decode(k, s);
        let dj = radix_digits(j, s);
        let dk = radix_digits(k, s);
        assert(dj[0] < s[0] && dk[0] < s[0]);
        assert(dj[1] < s[1] && dk[1] < s[1]);
        assert(dj[2] < s[2] && dk[2] < s[2]);
        assert(dj[3] < s[3] && dk[3] < s[3]);
        assert(dj[4] < s[4] && dk[4] < s[4]);
        assert(dj[5] < s[5] && dk[5] < s[5]);
        assert(dj[6] < s[6] && dk[6] < s[6]);
        assert(dj[7] < s[7] && dk[7] < s[7]);
        assert(dj =~= dk);
    }
}

impl Ssn {
    /// An enumerator of the codes matching `pattern`.
    pub fn iter(pattern: &SsnPattern) -> (it: SsnIterator)
        ensures
            it.wf(),
            it.pattern == *pattern,
    {
        SsnIterator::new(pattern)
    }
}

} // verus!
