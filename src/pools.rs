//! Pool records and the selection of a bounded, ranked shortlist.
use crate::text::{contains_text, is_infix, lower_of, lowercase};
use vstd::multiset::Multiset;
use vstd::prelude::*;

verus! {

/// Millionths per whole unit: amounts are held in fixed point.
pub const MICROS_PER_UNIT: i64 = 1_000_000;

/// Pools with less value locked than this (in millionths of a dollar) are ignored.
pub const TVL_FLOOR_MICROS: i64 = 50_000 * MICROS_PER_UNIT;

/// Yields at or above this (in millionths of a percent) are treated as feed errors.
pub const APY_CEILING_MICROS: i64 = 1_000_000 * MICROS_PER_UNIT;

/// A reported figure: a finite amount in millionths of a unit, or one of the
/// non-finite readings a numeric feed can carry.
#[derive(Clone, Copy, Debug, PartialEq, Eq, Structural)]
pub enum Quantity {
    Finite(i64),
    PosInfinity,
    NegInfinity,
    Undefined,
}

impl Quantity {
    /// At least the value-locked floor (an infinite amount passes, an undefined one does not).
    pub open spec fn spec_meets_tvl_floor(self) -> bool {
        match self {
            Quantity::Finite(m) => m >= TVL_FLOOR_MICROS,
            Quantity::PosInfinity => true,
            _ => false,
        }
    }

    /// A finite yield strictly between zero and the ceiling.
    pub open spec fn spec_is_plausible_apy(self) -> bool {
        match self {
            Quantity::Finite(m) => 0 < m && m < APY_CEILING_MICROS,
            _ => false,
        }
    }

    /// The ranking key: the finite amount, zero for any other reading.
    pub open spec fn spec_rank(self) -> int {
        match self {
            Quantity::Finite(m) => m as int,
            _ => 0,
        }
    }

    pub fn meets_tvl_floor(&self) -> (r: bool)
        ensures
            r == self.spec_meets_tvl_floor(),
    {
        match self {
            Quantity::Finite(m) => *m >= TVL_FLOOR_MICROS,
            Quantity::PosInfinity => true,
            _ => false,
        }
    }

    pub fn is_plausible_apy(&self) -> (r: bool)
        ensures
            r == self.spec_is_plausible_apy(),
    {
        match self {
            Quantity::Finite(m) => 0 < *m && *m < APY_CEILING_MICROS,
            _ => false,
        }
    }

    pub fn rank(&self) -> (r: i64)
        ensures
            r as int == self.spec_rank(),
    {
        match self {
            Quantity::Finite(m) => *m,
            _ => 0,
        }
    }
}

/// One market pool observation from the yields feed.
#[derive(Debug)]
pub struct LlamaPool {
    pub pool: String,
    pub chain: String,
    pub project: String,
    pub symbol: String,
    pub apy: Quantity,
    pub tvl_usd: Quantity,
}

impl LlamaPool {
    /// A field-by-field copy, equal to the original.
    pub fn duplicate(&self) -> (r: LlamaPool)
        ensures
            r == *self,
    {
        LlamaPool {
            pool: self.pool.clone(),
            chain: self.chain.clone(),
            project: self.project.clone(),
            symbol: self.symbol.clone(),
            apy: self.apy,
            tvl_usd: self.tvl_usd,
        }
    }
}

/// The selection filter, given the already case-folded chain and hint.
pub open spec fn keeps(p: LlamaPool, chain_lc: Seq<char>, hint_lc: Seq<char>) -> bool {
    &&& lower_of(p.chain@) == chain_lc
    &&& is_infix(hint_lc, lower_of(p.symbol@))
    &&& p.tvl_usd.spec_meets_tvl_floor()
    &&& p.apy.spec_is_plausible_apy()
}

/// The pools that pass the filter, in their original order.
pub open spec fn kept(s: Seq<LlamaPool>, chain_lc: Seq<char>, hint_lc: Seq<char>) -> Seq<LlamaPool>
    decreases s.len(),
{
    if s.len() == 0 {
        s
    } else {
        let rest = kept(s.drop_last(), chain_lc, hint_lc);
        if keeps(s.last(), chain_lc, hint_lc) {
            rest.push(s.last())
        } else {
            rest
        }
    }
}

/// Places `x` just before the first pool of `s` with a strictly lower yield.
pub open spec fn insert_by_apy(s: Seq<LlamaPool>, x: LlamaPool) -> Seq<LlamaPool>
    decreases s.len(),
{
    if s.len() == 0 {
        seq![x]
    } else if s[0].apy.spec_rank() < x.apy.spec_rank() {
        seq![x] + s
    } else {
        seq![s[0]] + insert_by_apy(s.drop_first(), x)
    }
}

/// Stable ordering by yield, highest first: pools of equal yield keep their
/// relative order.
pub open spec fn sort_by_apy(s: Seq<LlamaPool>) -> Seq<LlamaPool>
    decreases s.len(),
{
    if s.len() == 0 {
        s
    } else {
        insert_by_apy(sort_by_apy(s.drop_last()), s.last())
    }
}

/// The first `k` pools of `s`, or all of them when there are fewer.
pub open spec fn first_k(s: Seq<LlamaPool>, k: nat) -> Seq<LlamaPool> {
    if k < s.len() {
        s.subrange(0, k as int)
    } else {
        s
    }
}

/// The shortlist: the kept pools ranked by yield, cut to at most `k`.
pub open spec fn top_pools(s: Seq<LlamaPool>, chain_lc: Seq<char>, hint_lc: Seq<char>, k: nat) -> Seq<
    LlamaPool,
> {
    first_k(sort_by_apy(kept(s, chain_lc, hint_lc)), k)
}

/// Yields never increase along `s`.
pub open spec fn sorted_by_apy(s: Seq<LlamaPool>) -> bool {
    forall|i: int, j: int|
        0 <= i < j < s.len() ==> #[trigger] s[i].apy.spec_rank() >= #[trigger] s[j].apy.spec_rank()
}

/// `insert_by_apy` puts `x` at the first position whose pool yields strictly less.
proof fn lemma_insert_at(s: Seq<LlamaPool>, x: LlamaPool, j: int)
    requires
        0 <= j <= s.len(),
        forall|t: int| 0 <= t < j ==> s[t].apy.spec_rank() >= x.apy.spec_rank(),
        j < s.len() ==> s[j].apy.spec_rank() < x.apy.spec_rank(),
    ensures
        insert_by_apy(s, x) == s.insert(j, x),
    decreases s.len(),
{
    if s.len() == 0 {
        assert(s.insert(j, x) =~= seq![x]);
    } else if j == 0 {
        assert(s.insert(j, x) =~= seq![x] + s);
    } else {
        let rest = s.drop_first();
        lemma_insert_at(rest, x, j - 1);
        assert(s.insert(j, x) =~= seq![s[0]] + rest.insert(j - 1, x));
    }
}

/// Every pool of `s` passes the filter.
pub open spec fn all_keep(s: Seq<LlamaPool>, chain_lc: Seq<char>, hint_lc: Seq<char>) -> bool {
    forall|i: int| 0 <= i < s.len() ==> keeps(#[trigger] s[i], chain_lc, hint_lc)
}

/// No pool of `s` yields more than `b`.
pub open spec fn apy_at_most(s: Seq<LlamaPool>, b: int) -> bool {
    forall|i: int| 0 <= i < s.len() ==> #[trigger] s[i].apy.spec_rank() <= b
}

proof fn lemma_kept_all_keep(s: Seq<LlamaPool>, chain_lc: Seq<char>, hint_lc: Seq<char>)
    ensures
        all_keep(kept(s, chain_lc, hint_lc), chain_lc, hint_lc),
        kept(s, chain_lc, hint_lc).len() <= s.len(),
    decreases s.len(),
{
    if s.len() > 0 {
        lemma_kept_all_keep(s.drop_last(), chain_lc, hint_lc);
    }
}

proof fn lemma_insert_props(
    s: Seq<LlamaPool>,
    x: LlamaPool,
    chain_lc: Seq<char>,
    hint_lc: Seq<char>,
    b: int,
)
    ensures
        insert_by_apy(s, x).len() == s.len() + 1,
        all_keep(s, chain_lc, hint_lc) && keeps(x, chain_lc, hint_lc) ==> all_keep(
            insert_by_apy(s, x),
            chain_lc,
            hint_lc,
        ),
        apy_at_most(s, b) && x.apy.spec_rank() <= b ==> apy_at_most(insert_by_apy(s, x), b),
        sorted_by_apy(s) ==> sorted_by_apy(insert_by_apy(s, x)),
    decreases s.len(),
{
    let r = insert_by_apy(s, x);
    if s.len() == 0 {
    } else if s[0].apy.spec_rank() < x.apy.spec_rank() {
        assert(forall|i: int| 0 < i < r.len() ==> r[i] == s[i - 1]);
    } else {
        let rest = s.drop_first();
        let k0 = s[0].apy.spec_rank();
        lemma_insert_props(rest, x, chain_lc, hint_lc, b);
        lemma_insert_props(rest, x, chain_lc, hint_lc, k0);
        let tail = insert_by_apy(rest, x);
        assert(forall|i: int| 0 < i < r.len() ==> r[i] == tail[i - 1]);
        if sorted_by_apy(s) {
            assert(apy_at_most(rest, k0)) by {
                assert forall|i: int| 0 <= i < rest.len() implies #[trigger] rest[i].apy.spec_rank()
                    <= k0 by {
                    assert(rest[i] == s[i + 1]);
                }
            }
            assert(sorted_by_apy(rest)) by {
                assert forall|i: int, j: int| 0 <= i < j < rest.len() implies #[trigger] rest[i].apy.spec_rank()
                    >= #[trigger] rest[j].apy.spec_rank() by {
                    assert(rest[i] == s[i + 1] && rest[j] == s[j + 1]);
                }
            }
            assert forall|i: int, j: int| 0 <= i < j < r.len() implies #[trigger] r[i].apy.spec_rank()
                >= #[trigger] r[j].apy.spec_rank() by {
                if i == 0 {
                    assert(tail[j - 1].apy.spec_rank() <= k0);
                } else {
                    assert(r[i] == tail[i - 1] && r[j] == tail[j - 1]);
                }
            }
        }
        if all_keep(s, chain_lc, hint_lc) {
            assert(all_keep(rest, chain_lc, hint_lc)) by {
                assert forall|i: int| 0 <= i < rest.len() implies keeps(
                    #[trigger] rest[i],
                    chain_lc,
                    hint_lc,
                ) by {
                    assert(rest[i] == s[i + 1]);
                }
            }
        }
        if apy_at_most(s, b) {
            assert(apy_at_most(rest, b)) by {
                assert forall|i: int| 0 <= i < rest.len() implies #[trigger] rest[i].apy.spec_rank()
                    <= b by {
                    assert(rest[i] == s[i + 1]);
                }
            }
        }
    }
}

proof fn lemma_insert_permutes(s: Seq<LlamaPool>, x: LlamaPool)
    ensures
        insert_by_apy(s, x).to_multiset() =~= s.to_multiset().insert(x),
    decreases s.len(),
{
    broadcast use vstd::seq_lib::lemma_multiset_commutative;
    broadcast use vstd::multiset::group_multiset_axioms;
    broadcast use vstd::seq::group_seq_axioms;

    assert(seq![x].to_multiset() =~= Multiset::singleton(x)) by {
        assert(seq![x] =~= Seq::<LlamaPool>::empty().push(x));
        Seq::<LlamaPool>::empty().to_multiset_ensures();
    }
    if s.len() == 0 {
        assert(s =~= Seq::<LlamaPool>::empty());
        assert(insert_by_apy(s, x) == seq![x]);
        assert(s.to_multiset() =~= Multiset::empty()) by {
            s.to_multiset_ensures();
        }
    } else {
        let rest = s.drop_first();
        let head = seq![s[0]];
        assert(s =~= head + rest);
        assert(head.to_multiset() =~= Multiset::singleton(s[0])) by {
            assert(head =~= Seq::<LlamaPool>::empty().push(s[0]));
            Seq::<LlamaPool>::empty().to_multiset_ensures();
        }
        assert(s.to_multiset() =~= Multiset::singleton(s[0]).add(rest.to_multiset()));
        if s[0].apy.spec_rank() < x.apy.spec_rank() {
            assert(insert_by_apy(s, x) == seq![x] + s);
            assert((seq![x] + s).to_multiset() =~= Multiset::singleton(x).add(s.to_multiset()));
        } else {
            lemma_insert_permutes(rest, x);
            let tail = insert_by_apy(rest, x);
            assert(insert_by_apy(s, x) == head + tail);
            assert((head + tail).to_multiset() =~= Multiset::singleton(s[0]).add(tail.to_multiset()));
        }
    }
}

/// Ranking by yield reorders pools and nothing more: the ranked sequence
/// holds exactly the pools it was given, each as often.
pub proof fn lemma_sort_permutes(s: Seq<LlamaPool>)
    ensures
        sort_by_apy(s).to_multiset() =~= s.to_multiset(),
    decreases s.len(),
{
    if s.len() > 0 {
        let init = s.drop_last();
        lemma_sort_permutes(init);
        lemma_insert_permutes(sort_by_apy(init), s.last());
        assert(init.push(s.last()) =~= s);
        init.to_multiset_ensures();
    }
}

proof fn lemma_sort_props(s: Seq<LlamaPool>, chain_lc: Seq<char>, hint_lc: Seq<char>)
    ensures
        sort_by_apy(s).len() == s.len(),
        sorted_by_apy(sort_by_apy(s)),
        all_keep(s, chain_lc, hint_lc) ==> all_keep(sort_by_apy(s), chain_lc, hint_lc),
    decreases s.len(),
{
    if s.len() > 0 {
        let init = s.drop_last();
        lemma_sort_props(init, chain_lc, hint_lc);
        lemma_insert_props(sort_by_apy(init), s.last(), chain_lc, hint_lc, 0);
        if all_keep(s, chain_lc, hint_lc) {
            assert(all_keep(init, chain_lc, hint_lc)) by {
                assert forall|i: int| 0 <= i < init.len() implies keeps(
                    #[trigger] init[i],
                    chain_lc,
                    hint_lc,
                ) by {
                    assert(init[i] == s[i]);
                }
            }
            assert(keeps(s[s.len() - 1], chain_lc, hint_lc));
        }
    }
}

/// The shortlist never holds more than `k` pools.
pub proof fn lemma_top_pools_bounded(
    s: Seq<LlamaPool>,
    chain_lc: Seq<char>,
    hint_lc: Seq<char>,
    k: nat,
)
    ensures
        top_pools(s, chain_lc, hint_lc, k).len() <= k,
        top_pools(s, chain_lc, hint_lc, k).len() <= s.len(),
{
    lemma_kept_all_keep(s, chain_lc, hint_lc);
    lemma_sort_props(kept(s, chain_lc, hint_lc), chain_lc, hint_lc);
}

/// Every shortlisted pool is on the requested chain, carries the hint in its
/// symbol (both up to case), has at least the value-locked floor and a finite
/// yield strictly between zero and the ceiling.
pub proof fn lemma_top_pools_filtered(
    s: Seq<LlamaPool>,
    chain_lc: Seq<char>,
    hint_lc: Seq<char>,
    k: nat,
)
    ensures
        all_keep(top_pools(s, chain_lc, hint_lc, k), chain_lc, hint_lc),
{
    let f = kept(s, chain_lc, hint_lc);
    lemma_kept_all_keep(s, chain_lc, hint_lc);
    lemma_sort_props(f, chain_lc, hint_lc);
    let ranked = sort_by_apy(f);
    let r = top_pools(s, chain_lc, hint_lc, k);
    assert forall|i: int| 0 <= i < r.len() implies keeps(#[trigger] r[i], chain_lc, hint_lc) by {
        assert(r[i] == ranked[i]);
    }
}

/// The shortlist is ordered by yield, highest first.
pub proof fn lemma_top_pools_sorted(
    s: Seq<LlamaPool>,
    chain_lc: Seq<char>,
    hint_lc: Seq<char>,
    k: nat,
)
    ensures
        sorted_by_apy(top_pools(s, chain_lc, hint_lc, k)),
{
    let f = kept(s, chain_lc, hint_lc);
    lemma_sort_props(f, chain_lc, hint_lc);
    let ranked = sort_by_apy(f);
    let r = top_pools(s, chain_lc, hint_lc, k);
    assert forall|i: int, j: int| 0 <= i < j < r.len() implies #[trigger] r[i].apy.spec_rank()
        >= #[trigger] r[j].apy.spec_rank() by {
        assert(r[i] == ranked[i] && r[j] == ranked[j]);
    }
}

/// Selection is a function of its inputs: two shortlists drawn from the same
/// pools, chain, hint and bound are the same sequence.
pub proof fn lemma_top_pools_deterministic(
    s: Seq<LlamaPool>,
    chain: Seq<char>,
    hint: Seq<char>,
    k: nat,
    r1: Seq<LlamaPool>,
    r2: Seq<LlamaPool>,
)
    requires
        r1 == top_pools(s, lower_of(chain), lower_of(hint), k),
        r2 == top_pools(s, lower_of(chain), lower_of(hint), k),
    ensures
        r1 == r2,
{
}

fn insert_ranked(ranked: &mut Vec<LlamaPool>, p: LlamaPool)
    ensures
        final(ranked)@ == insert_by_apy(old(ranked)@, p),
{
    let key = p.apy.rank();
    let mut j: usize = 0;
    while j < ranked.len() && ranked[j].apy.rank() >= key
        invariant
            j <= ranked@.len(),
            key == p.apy.spec_rank(),
            forall|t: int| 0 <= t < j ==> ranked@[t].apy.spec_rank() >= p.apy.spec_rank(),
        decreases ranked@.len() - j,
    {
        j += 1;
    }
    proof {
        lemma_insert_at(ranked@, p, j as int);
    }
    ranked.insert(j, p);
}

/// Whether a pool with the given case-folded chain and symbol, yield and
/// value locked passes the selection filter for the case-folded `chain_lc`
/// and `hint_lc`.
pub fn passes_filter(
    chain_folded: &str,
    symbol_folded: &str,
    apy: Quantity,
    tvl_usd: Quantity,
    chain_lc: &str,
    hint_lc: &str,
) -> (r: bool)
    ensures
        r == (chain_folded@ == chain_lc@ && is_infix(hint_lc@, symbol_folded@)
            && tvl_usd.spec_meets_tvl_floor() && apy.spec_is_plausible_apy()),
{
    let chain_matches = String::from_str(chain_folded) == String::from_str(chain_lc);
    chain_matches && contains_text(symbol_folded, hint_lc) && tvl_usd.meets_tvl_floor()
        && apy.is_plausible_apy()
}

/// Orders `pools` by yield, highest first, keeping the input order among
/// equal yields, and keeps the first `top_k`.
pub fn rank_pools(pools: Vec<LlamaPool>, top_k: usize) -> (r: Vec<LlamaPool>)
    ensures
        r@ == first_k(sort_by_apy(pools@), top_k as nat),
        r@.len() <= top_k,
        sorted_by_apy(r@),
        pools@.len() <= top_k ==> r@.to_multiset() == pools@.to_multiset(),
{
    let mut ranked: Vec<LlamaPool> = Vec::new();
    let mut i: usize = 0;
    while i < pools.len()
        invariant
            i <= pools@.len(),
            ranked@ == sort_by_apy(pools@.subrange(0, i as int)),
        decreases pools@.len() - i,
    {
        insert_ranked(&mut ranked, pools[i].duplicate());
        proof {
            assert(pools@.subrange(0, i + 1).drop_last() =~= pools@.subrange(0, i as int));
        }
        i += 1;
    }
    proof {
        assert(pools@.subrange(0, pools@.len() as int) =~= pools@);
        lemma_sort_props(pools@, Seq::empty(), Seq::empty());
        lemma_sort_permutes(pools@);
        let sorted = sort_by_apy(pools@);
        let r = first_k(sorted, top_k as nat);
        assert forall|i: int, j: int| 0 <= i < j < r.len() implies #[trigger] r[i].apy.spec_rank()
            >= #[trigger] r[j].apy.spec_rank() by {
            assert(r[i] == sorted[i] && r[j] == sorted[j]);
        }
    }
    ranked.truncate(top_k);
    ranked
}

/// Picks up to `top_k` pools on `chain` whose symbol contains `stable_hint`
/// (both compared case-insensitively), with enough value locked and a
/// plausible yield, ranked by yield from the highest; pools of equal yield
/// keep their input order.
pub fn select_top_pools(pools: &[LlamaPool], chain: &str, stable_hint: &str, top_k: usize) -> (r:
    Vec<LlamaPool>)
    ensures
        r@ == top_pools(pools@, lower_of(chain@), lower_of(stable_hint@), top_k as nat),
        r@.len() <= top_k,
        all_keep(r@, lower_of(chain@), lower_of(stable_hint@)),
        sorted_by_apy(r@),
{
    let chain_lc = lowercase(chain);
    let hint_lc = lowercase(stable_hint);

    let mut filtered: Vec<LlamaPool> = Vec::new();
    let mut i: usize = 0;
    while i < pools.len()
        invariant
            i <= pools@.len(),
            filtered@ == kept(pools@.subrange(0, i as int), chain_lc@, hint_lc@),
        decreases pools@.len() - i,
    {
        let p = &pools[i];
        let chain_folded = lowercase(p.chain.as_str());
        let symbol_folded = lowercase(p.symbol.as_str());
        if passes_filter(
            chain_folded.as_str(),
            symbol_folded.as_str(),
            p.apy,
            p.tvl_usd,
            chain_lc.as_str(),
            hint_lc.as_str(),
        ) {
            filtered.push(p.duplicate());
        }
        proof {
            assert(pools@.subrange(0, i + 1).drop_last() =~= pools@.subrange(0, i as int));
        }
        i += 1;
    }
    proof {
        assert(pools@.subrange(0, pools@.len() as int) =~= pools@);
        let (c, h, k) = (lower_of(chain@), lower_of(stable_hint@), top_k as nat);
        lemma_top_pools_bounded(pools@, c, h, k);
        lemma_top_pools_filtered(pools@, c, h, k);
        lemma_top_pools_sorted(pools@, c, h, k);
    }
    rank_pools(filtered, top_k)
}

} // verus!
