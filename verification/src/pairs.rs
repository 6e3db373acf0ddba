//! Tradable pairs: their identifiers, the candidate pairs drawn from a list
//! of markets, and the selection of the cointegrated ones.

use vstd::prelude::*;

use crate::text::{ends_with, lemma_split_joined, no_slash, split_slash, text_ends_with};
use crate::utils::same_text;

verus! {

/// Two market names, in the order the pair is traded.
pub type NamePair = (Seq<char>, Seq<char>);

/// The names held by a pair of strings.
pub open spec fn pair_of(p: [String; 2]) -> NamePair {
    (p@[0]@, p@[1]@)
}

/// The names held by a list of pairs.
pub open spec fn pairs_view(v: Seq<[String; 2]>) -> Seq<NamePair> {
    v.map_values(|p: [String; 2]| pair_of(p))
}

/// The texts of a list of strings.
pub open spec fn names_view(v: Seq<String>) -> Seq<Seq<char>> {
    v.map_values(|s: String| s@)
}

/// The identifier of a pair: the two names joined by '/'.
pub open spec fn spec_pair_id(first: Seq<char>, second: Seq<char>) -> Seq<char> {
    first + seq!['/'] + second
}

/// Builds the identifier of the pair (`first`, `second`).
pub fn pair_id(first: &str, second: &str) -> (id: String)
    ensures
        id@ == spec_pair_id(first@, second@),
{
    let mut id = first.to_owned();
    id.append("/");
    id.append(second);
    proof {
        reveal_strlit("/");
        assert(id@ =~= spec_pair_id(first@, second@));
    }
    id
}

/// A market that is screened for pairs: a future whose name ends in
/// "-PERP" (a perpetual future).
pub open spec fn spec_is_perpetual_future(kind: Option<Seq<char>>, name: Option<Seq<char>>) -> bool {
    &&& kind == Some("future"@)
    &&& name matches Some(n) && ends_with(n, "-PERP"@)
}

/// Whether a listed market, of type `kind` and name `name`, is a perpetual
/// future.
pub fn is_perpetual_future(kind: Option<&str>, name: Option<&str>) -> (r: bool)
    ensures
        r == spec_is_perpetual_future(
            match kind {
                Some(k) => Some(k@),
                None => None,
            },
            match name {
                Some(n) => Some(n@),
                None => None,
            },
        ),
{
    match (kind, name) {
        (Some(k), Some(n)) => same_text(k, "future") && text_ends_with(n, "-PERP"),
        _ => false,
    }
}

/// What building the pair list does after an attempt at one pair: which pair
/// to attempt next and how long to pause first.
#[derive(Debug, Clone, Copy, PartialEq, Eq)]
pub struct PairListStep {
    pub next_index: usize,
    pub pause_ms: u64,
}

/// After an attempt at the pair at `index`: when the pair was built, move on
/// to the next pair after 40 ms; otherwise retry the same pair after 20 ms.
pub fn after_pair_attempt(index: usize, built: bool) -> (s: PairListStep)
    requires
        index < usize::MAX,
    ensures
        built ==> s.next_index == index + 1 && s.pause_ms == 40,
        !built ==> s.next_index == index && s.pause_ms == 20,
{
    if built {
        PairListStep { next_index: index + 1, pause_ms: 40 }
    } else {
        PairListStep { next_index: index, pause_ms: 20 }
    }
}

/// One step of the candidate scan: (`a`, `b`) is added when the names
/// differ and (`b`, `a`) was not taken already.
pub open spec fn add_candidate(acc: Seq<NamePair>, a: Seq<char>, b: Seq<char>) -> Seq<NamePair> {
    if a != b && !acc.contains((b, a)) {
        acc.push((a, b))
    } else {
        acc
    }
}

/// The scan of (`a`, `list[j]`) for `j` below `j_end`, starting from `acc`.
pub open spec fn scan_row(list: Seq<Seq<char>>, a: Seq<char>, j_end: nat, acc: Seq<NamePair>) -> Seq<NamePair>
    decreases j_end,
{
    if j_end == 0 {
        acc
    } else {
        add_candidate(scan_row(list, a, (j_end - 1) as nat, acc), a, list[j_end - 1])
    }
}

/// The candidates after the rows of the first `i_end` names.
pub open spec fn candidates_upto(list: Seq<Seq<char>>, i_end: nat) -> Seq<NamePair>
    decreases i_end,
{
    if i_end == 0 {
        Seq::empty()
    } else {
        scan_row(list, list[i_end - 1], list.len(), candidates_upto(list, (i_end - 1) as nat))
    }
}

/// The candidate pairs of a list of names: every (`list[i]`, `list[j]`) in
/// row-major order whose names differ and whose reverse was not taken
/// before.
pub open spec fn candidate_pairs_spec(list: Seq<Seq<char>>) -> Seq<NamePair> {
    candidates_upto(list, list.len())
}

fn contains_pair(v: &Vec<[String; 2]>, a: &String, b: &String) -> (r: bool)
    ensures
        r == pairs_view(v@).contains((a@, b@)),
{
    let n = v.len();
    let mut k: usize = 0;
    while k < n
        invariant
            n == v@.len(),
            k <= n,
            forall|m: int| 0 <= m < k ==> pair_of(#[trigger] v@[m]) != (a@, b@),
        decreases n - k,
    {
        let p = &v[k];
        if p[0].eq(a) && p[1].eq(b) {
            assert(pairs_view(v@)[k as int] == (a@, b@));
            return true;
        }
        k = k + 1;
    }
    proof {
        if pairs_view(v@).contains((a@, b@)) {
            let m = choose|m: int| 0 <= m < pairs_view(v@).len() && pairs_view(v@)[m] == (a@, b@);
            assert(pair_of(v@[m]) == (a@, b@));
        }
    }
    false
}

/// Every pair of distinct names of the list, each unordered pair taken in
/// the first orientation met when scanning rows in order.
pub fn candidate_pairs(crypto_list: &Vec<String>) -> (r: Vec<[String; 2]>)
    ensures
        pairs_view(r@) == candidate_pairs_spec(names_view(crypto_list@)),
{
    let ghost list = names_view(crypto_list@);
    let n = crypto_list.len();
    let mut out: Vec<[String; 2]> = Vec::new();
    let mut i: usize = 0;
    proof {
        assert(pairs_view(out@) =~= candidates_upto(list, 0));
    }
    while i < n
        invariant
            n == crypto_list@.len(),
            list == names_view(crypto_list@),
            i <= n,
            pairs_view(out@) == candidates_upto(list, i as nat),
        decreases n - i,
    {
        let mut j: usize = 0;
        let ghost row_start = pairs_view(out@);
        while j < n
            invariant
                n == crypto_list@.len(),
                list == names_view(crypto_list@),
                i < n,
                j <= n,
                row_start == candidates_upto(list, i as nat),
                pairs_view(out@) == scan_row(list, list[i as int], j as nat, row_start),
            decreases n - j,
        {
            let a = &crypto_list[i];
            let b = &crypto_list[j];
            let ghost before = pairs_view(out@);
            assert(list[i as int] == a@ && list[j as int] == b@);
            if !a.eq(b) && !contains_pair(&out, b, a) {
                let p: [String; 2] = [a.clone(), b.clone()];
                out.push(p);
                assert(pairs_view(out@) =~= before.push((a@, b@)));
            }
            j = j + 1;
        }
        i = i + 1;
    }
    out
}


/// The candidates whose flag is set, in their order.
pub open spec fn keep_flagged(candidates: Seq<NamePair>, flags: Seq<bool>) -> Seq<NamePair>
    decreases candidates.len(),
{
    if candidates.len() == 0 {
        Seq::empty()
    } else {
        let prev = keep_flagged(candidates.drop_last(), flags);
        if flags[candidates.len() - 1] {
            prev.push(candidates.last())
        } else {
            prev
        }
    }
}

/// `name` appended to `used` unless already there.
pub open spec fn add_name(used: Seq<Seq<char>>, name: Seq<char>) -> Seq<Seq<char>> {
    if used.contains(name) {
        used
    } else {
        used.push(name)
    }
}

/// The names that occur in a list of pairs, each once, in order of first
/// occurrence (first name of a pair before its second).
pub open spec fn names_in(pairs: Seq<NamePair>) -> Seq<Seq<char>>
    decreases pairs.len(),
{
    if pairs.len() == 0 {
        Seq::empty()
    } else {
        add_name(add_name(names_in(pairs.drop_last()), pairs.last().0), pairs.last().1)
    }
}

fn contains_name(v: &Vec<String>, name: &String) -> (r: bool)
    ensures
        r == names_view(v@).contains(name@),
{
    let n = v.len();
    let mut k: usize = 0;
    while k < n
        invariant
            n == v@.len(),
            k <= n,
            forall|m: int| 0 <= m < k ==> (#[trigger] v@[m])@ != name@,
        decreases n - k,
    {
        if v[k].eq(name) {
            assert(names_view(v@)[k as int] == name@);
            return true;
        }
        k = k + 1;
    }
    proof {
        if names_view(v@).contains(name@) {
            let m = choose|m: int| 0 <= m < names_view(v@).len() && names_view(v@)[m] == name@;
            assert(v@[m]@ == name@);
        }
    }
    false
}

fn push_new_name(used: &mut Vec<String>, name: &String)
    ensures
        names_view(final(used)@) == add_name(names_view(old(used)@), name@),
{
    if !contains_name(used, name) {
        used.push(name.clone());
        assert(names_view(final(used)@) =~= names_view(old(used)@).push(name@));
    }
}

/// The cointegrated pairs among the candidates (`cointegrated[k]` tells
/// whether `candidates[k]` passed the test) and the names they use.
pub fn cointegrated_pairs(candidates: &Vec<[String; 2]>, cointegrated: &Vec<bool>) -> (r: (
    Vec<[String; 2]>,
    Vec<String>,
))
    requires
        cointegrated@.len() == candidates@.len(),
    ensures
        pairs_view(r.0@) == keep_flagged(pairs_view(candidates@), cointegrated@),
        names_view(r.1@) == names_in(pairs_view(r.0@)),
{
    let n = candidates.len();
    let mut kept: Vec<[String; 2]> = Vec::new();
    let mut used: Vec<String> = Vec::new();
    let mut k: usize = 0;
    proof {
        assert(pairs_view(candidates@).take(0) =~= Seq::<NamePair>::empty());
    }
    while k < n
        invariant
            n == candidates@.len(),
            cointegrated@.len() == n,
            k <= n,
            pairs_view(kept@) == keep_flagged(pairs_view(candidates@).take(k as int), cointegrated@),
            names_view(used@) == names_in(pairs_view(kept@)),
        decreases n - k,
    {
        let ghost prefix = pairs_view(candidates@).take(k as int);
        let ghost next = pairs_view(candidates@).take(k + 1);
        assert(next.drop_last() =~= prefix);
        assert(next.last() == pair_of(candidates@[k as int]));
        if cointegrated[k] {
            let p = &candidates[k];
            let ghost kept_before = pairs_view(kept@);
            push_new_name(&mut used, &p[0]);
            push_new_name(&mut used, &p[1]);
            let q: [String; 2] = [p[0].clone(), p[1].clone()];
            kept.push(q);
            assert(pairs_view(kept@) =~= kept_before.push(pair_of(candidates@[k as int])));
            assert(pairs_view(kept@).drop_last() =~= kept_before);
        }
        k = k + 1;
    }
    assert(pairs_view(candidates@).take(n as int) =~= pairs_view(candidates@));
    (kept, used)
}


/// Every entry pairs two different names of `list`.
pub open spec fn pairs_well_formed(list: Seq<Seq<char>>, acc: Seq<NamePair>) -> bool {
    forall|m: int|
        0 <= m < acc.len() ==> (#[trigger] acc[m]).0 != acc[m].1 && list.contains(acc[m].0)
            && list.contains(acc[m].1)
}

/// No entry is the reverse of an entry.
pub open spec fn no_reversed_duplicates(acc: Seq<NamePair>) -> bool {
    forall|m1: int, m2: int|
        0 <= m1 < acc.len() && 0 <= m2 < acc.len() ==> #[trigger] acc[m2] != (
            #[trigger] acc[m1].1,
            acc[m1].0,
        )
}

proof fn lemma_add_candidate_keeps(list: Seq<Seq<char>>, acc: Seq<NamePair>, a: Seq<char>, b: Seq<char>)
    requires
        pairs_well_formed(list, acc),
        no_reversed_duplicates(acc),
        list.contains(a),
        list.contains(b),
    ensures
        pairs_well_formed(list, add_candidate(acc, a, b)),
        no_reversed_duplicates(add_candidate(acc, a, b)),
        forall|x: NamePair| acc.contains(x) ==> add_candidate(acc, a, b).contains(x),
        a != b ==> add_candidate(acc, a, b).contains((a, b)) || add_candidate(acc, a, b).contains((b, a)),
{
    let r = add_candidate(acc, a, b);
    if a != b && !acc.contains((b, a)) {
        assert forall|x: NamePair| acc.contains(x) implies r.contains(x) by {
            let m = choose|m: int| 0 <= m < acc.len() && acc[m] == x;
            assert(r[m] == x);
        }
        assert(r[acc.len() as int] == (a, b));
        assert forall|m1: int, m2: int|
            0 <= m1 < r.len() && 0 <= m2 < r.len() implies #[trigger] r[m2] != (#[trigger] r[m1].1, r[m1].0) by {
            if m1 < acc.len() && m2 < acc.len() {
                assert(r[m1] == acc[m1] && r[m2] == acc[m2]);
            } else if m1 < acc.len() {
                assert(r[m1] == acc[m1]);
                if r[m2] == (r[m1].1, r[m1].0) {
                    assert(acc[m1] == (b, a));
                }
            } else if m2 < acc.len() {
                assert(r[m2] == acc[m2]);
                if r[m2] == (r[m1].1, r[m1].0) {
                    assert(acc[m2] == (b, a));
                }
            }
        }
        assert forall|m: int| 0 <= m < r.len() implies (#[trigger] r[m]).0 != r[m].1 && list.contains(r[m].0)
            && list.contains(r[m].1) by {
            if m < acc.len() {
                assert(r[m] == acc[m]);
            }
        }
    } else if a != b {
        assert(r.contains((b, a)));
    }
}

proof fn lemma_scan_row(list: Seq<Seq<char>>, a: Seq<char>, j_end: nat, acc: Seq<NamePair>)
    requires
        j_end <= list.len(),
        pairs_well_formed(list, acc),
        no_reversed_duplicates(acc),
        list.contains(a),
    ensures
        pairs_well_formed(list, scan_row(list, a, j_end, acc)),
        no_reversed_duplicates(scan_row(list, a, j_end, acc)),
        forall|x: NamePair| acc.contains(x) ==> scan_row(list, a, j_end, acc).contains(x),
        forall|j: int|
            0 <= j < j_end && list[j] != a ==> scan_row(list, a, j_end, acc).contains((a, #[trigger] list[j]))
                || scan_row(list, a, j_end, acc).contains((list[j], a)),
    decreases j_end,
{
    if j_end > 0 {
        let j0 = (j_end - 1) as nat;
        lemma_scan_row(list, a, j0, acc);
        let prev = scan_row(list, a, j0, acc);
        assert(list.contains(list[j0 as int]));
        lemma_add_candidate_keeps(list, prev, a, list[j0 as int]);
    }
}

proof fn lemma_candidates_upto(list: Seq<Seq<char>>, i_end: nat)
    requires
        i_end <= list.len(),
    ensures
        pairs_well_formed(list, candidates_upto(list, i_end)),
        no_reversed_duplicates(candidates_upto(list, i_end)),
        forall|i: int, j: int|
            0 <= i < i_end && 0 <= j < list.len() && list[i] != list[j] ==> candidates_upto(
                list,
                i_end,
            ).contains((#[trigger] list[i], #[trigger] list[j])) || candidates_upto(list, i_end).contains(
                (list[j], list[i]),
            ),
    decreases i_end,
{
    if i_end > 0 {
        let i0 = (i_end - 1) as nat;
        lemma_candidates_upto(list, i0);
        let prev = candidates_upto(list, i0);
        assert(list.contains(list[i0 as int]));
        lemma_scan_row(list, list[i0 as int], list.len(), prev);
    }
}

/// Every candidate pairs two different names of the list, no candidate is
/// the reverse of another, and every two different names of the list are
/// paired in one orientation or the other.
pub proof fn lemma_candidate_pairs(list: Seq<Seq<char>>)
    ensures
        pairs_well_formed(list, candidate_pairs_spec(list)),
        no_reversed_duplicates(candidate_pairs_spec(list)),
        forall|i: int, j: int|
            0 <= i < list.len() && 0 <= j < list.len() && list[i] != list[j]
                ==> candidate_pairs_spec(list).contains((#[trigger] list[i], #[trigger] list[j]))
                || candidate_pairs_spec(list).contains((list[j], list[i])),
{
    lemma_candidates_upto(list, list.len());
}

/// A pair is kept exactly when it is a candidate whose flag is set.
pub proof fn lemma_keep_flagged(candidates: Seq<NamePair>, flags: Seq<bool>, x: NamePair)
    requires
        flags.len() >= candidates.len(),
    ensures
        keep_flagged(candidates, flags).contains(x) <==> exists|k: int|
            0 <= k < candidates.len() && #[trigger] flags[k] && candidates[k] == x,
    decreases candidates.len(),
{
    if candidates.len() > 0 {
        let c0 = candidates.drop_last();
        let prev = keep_flagged(c0, flags);
        let last = candidates.len() - 1;
        lemma_keep_flagged(c0, flags, x);
        let r = keep_flagged(candidates, flags);
        if r.contains(x) {
            if flags[last] && x == candidates.last() {
                assert(flags[last] && candidates[last] == x);
            } else {
                let m = choose|m: int| 0 <= m < r.len() && r[m] == x;
                if flags[last] {
                    assert(m < prev.len());
                    assert(prev[m] == x);
                }
                assert(prev.contains(x));
                let k = choose|k: int| 0 <= k < c0.len() && #[trigger] flags[k] && c0[k] == x;
                assert(candidates[k] == x);
            }
        }
        if exists|k: int| 0 <= k < candidates.len() && #[trigger] flags[k] && candidates[k] == x {
            let k = choose|k: int| 0 <= k < candidates.len() && #[trigger] flags[k] && candidates[k] == x;
            if k == last {
                assert(r[r.len() - 1] == x);
            } else {
                assert(c0[k] == x);
                assert(prev.contains(x));
                let m = choose|m: int| 0 <= m < prev.len() && prev[m] == x;
                if flags[last] {
                    assert(r[m] == x);
                }
            }
        }
    }
}

proof fn lemma_add_name(used: Seq<Seq<char>>, name: Seq<char>)
    ensures
        used.no_duplicates() ==> add_name(used, name).no_duplicates(),
        forall|x: Seq<char>| add_name(used, name).contains(x) <==> used.contains(x) || x == name,
{
    let r = add_name(used, name);
    if !used.contains(name) {
        assert(r[used.len() as int] == name);
        assert forall|x: Seq<char>| r.contains(x) implies used.contains(x) || x == name by {
            let m = choose|m: int| 0 <= m < r.len() && r[m] == x;
            if m < used.len() {
                assert(used[m] == x);
            }
        }
        assert forall|x: Seq<char>| used.contains(x) implies r.contains(x) by {
            let m = choose|m: int| 0 <= m < used.len() && used[m] == x;
            assert(r[m] == x);
        }
        if used.no_duplicates() {
            assert forall|m1: int, m2: int| 0 <= m1 < r.len() && 0 <= m2 < r.len() && m1 != m2 implies r[m1] != r[m2] by {
                if m1 < used.len() && m2 < used.len() {
                    assert(r[m1] == used[m1] && r[m2] == used[m2]);
                } else if m1 < used.len() {
                    assert(r[m1] == used[m1]);
                } else if m2 < used.len() {
                    assert(r[m2] == used[m2]);
                }
            }
        }
    }
}

/// `p` holds the name `x`.
pub open spec fn pair_holds(p: NamePair, x: Seq<char>) -> bool {
    p.0 == x || p.1 == x
}

/// The names used by a list of pairs occur once each, and a name is listed
/// exactly when some pair holds it.
pub proof fn lemma_names_in(pairs: Seq<NamePair>)
    ensures
        names_in(pairs).no_duplicates(),
        forall|x: Seq<char>|
            #[trigger] names_in(pairs).contains(x) <==> exists|k: int|
                0 <= k < pairs.len() && pair_holds(#[trigger] pairs[k], x),
    decreases pairs.len(),
{
    if pairs.len() == 0 {
        assert(names_in(pairs) =~= Seq::<Seq<char>>::empty());
    } else {
        let p0 = pairs.drop_last();
        assert(p0 =~= pairs.subrange(0, pairs.len() - 1));
        lemma_names_in(p0);
        let last = pairs.last();
        let n0 = names_in(p0);
        lemma_add_name(n0, last.0);
        lemma_add_name(add_name(n0, last.0), last.1);
        assert forall|x: Seq<char>|
            #[trigger] names_in(pairs).contains(x) <==> exists|k: int|
                0 <= k < pairs.len() && pair_holds(#[trigger] pairs[k], x) by {
            if names_in(pairs).contains(x) {
                if x == last.0 || x == last.1 {
                    assert(pair_holds(pairs[pairs.len() - 1], x));
                } else {
                    assert(names_in(p0).contains(x));
                    let k = choose|k: int| 0 <= k < p0.len() && pair_holds(#[trigger] p0[k], x);
                    assert(pairs[k] == p0[k]);
                    assert(pair_holds(pairs[k], x));
                }
            }
            if exists|k: int| 0 <= k < pairs.len() && pair_holds(#[trigger] pairs[k], x) {
                let k = choose|k: int| 0 <= k < pairs.len() && pair_holds(#[trigger] pairs[k], x);
                if k < p0.len() {
                    assert(p0[k] == pairs[k]);
                    assert(pair_holds(p0[k], x));
                    assert(names_in(p0).contains(x));
                }
            }
        }
    }
}


/// The two names of a pair come back, in order, from splitting its
/// identifier at '/' when neither name holds a '/'.
pub proof fn lemma_pair_id_splits(first: Seq<char>, second: Seq<char>)
    requires
        no_slash(first),
        no_slash(second),
    ensures
        split_slash(spec_pair_id(first, second)) == seq![first, second],
{
    lemma_split_joined(first, second);
}

} // verus!
