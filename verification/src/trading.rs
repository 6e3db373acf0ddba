//! The decisions of the trading loop: which market names are already in an
//! open position, when to refresh the pair list, and what to do with a pair.

use vstd::prelude::*;

use crate::pairs::names_view;
use crate::text::{chars_contain, chars_of, contains_text, split_on_slash, split_slash};
use crate::utils::same_text;

verus! {

/// How many positions may be open at once.
pub const MAX_POS: usize = 3;

/// How old, in milliseconds, the cointegrated pair list may get (one day).
pub const PAIRS_REFRESH_MS: u128 = 86_400_000;

/// `crypto` occurs in the identifier of an open position.
pub open spec fn spec_is_used(crypto: Seq<char>, position_ids: Seq<Seq<char>>) -> bool {
    exists|k: int| 0 <= k < position_ids.len() && contains_text(#[trigger] position_ids[k], crypto)
}

fn used_in(crypto: &Vec<char>, position_ids: &Vec<String>) -> (r: bool)
    ensures
        r == spec_is_used(crypto@, names_view(position_ids@)),
{
    let n = position_ids.len();
    let mut k: usize = 0;
    while k < n
        invariant
            n == position_ids@.len(),
            k <= n,
            forall|m: int| 0 <= m < k ==> !contains_text((#[trigger] position_ids@[m])@, crypto@),
        decreases n - k,
    {
        let id = chars_of(position_ids[k].as_str());
        if chars_contain(&id, crypto) {
            assert(names_view(position_ids@)[k as int] == position_ids@[k as int]@);
            return true;
        }
        k = k + 1;
    }
    proof {
        if spec_is_used(crypto@, names_view(position_ids@)) {
            let m = choose|m: int|
                0 <= m < names_view(position_ids@).len() && contains_text(
                    #[trigger] names_view(position_ids@)[m],
                    crypto@,
                );
            assert(names_view(position_ids@)[m] == position_ids@[m]@);
        }
    }
    false
}

/// Whether `crypto` occurs in the identifier of one of the open positions.
pub fn is_used(crypto: &str, position_ids: &Vec<String>) -> (r: bool)
    ensures
        r == spec_is_used(crypto@, names_view(position_ids@)),
{
    let c = chars_of(crypto);
    used_in(&c, position_ids)
}

/// Some '/'-separated piece of the pair identifier is already in use.
pub open spec fn spec_pair_in_use(pair_id: Seq<char>, position_ids: Seq<Seq<char>>) -> bool {
    exists|k: int|
        0 <= k < split_slash(pair_id).len() && spec_is_used(
            #[trigger] split_slash(pair_id)[k],
            position_ids,
        )
}

/// Whether one of the names of the pair `pair_id` ("A/B") is already taken
/// by an open position.
pub fn pair_in_use(pair_id: &str, position_ids: &Vec<String>) -> (r: bool)
    ensures
        r == spec_pair_in_use(pair_id@, names_view(position_ids@)),
{
    let pieces = split_on_slash(pair_id);
    let n = pieces.len();
    let mut k: usize = 0;
    while k < n
        invariant
            n == pieces@.len(),
            n == split_slash(pair_id@).len(),
            forall|m: int| 0 <= m < n ==> #[trigger] pieces@[m]@ == split_slash(pair_id@)[m],
            k <= n,
            forall|m: int|
                0 <= m < k ==> !spec_is_used(#[trigger] split_slash(pair_id@)[m], names_view(position_ids@)),
        decreases n - k,
    {
        if used_in(&pieces[k], position_ids) {
            assert(pieces@[k as int]@ == split_slash(pair_id@)[k as int]);
            return true;
        }
        k = k + 1;
    }
    false
}

/// Whether the cointegrated pair list, last rebuilt at `last_update`, is a
/// day old or more at `now` (both in milliseconds).
pub fn needs_pairs_refresh(now: u128, last_update: u128) -> (r: bool)
    requires
        last_update <= now,
    ensures
        r == (now - last_update >= PAIRS_REFRESH_MS),
{
    now - last_update >= PAIRS_REFRESH_MS
}

/// Whether the loop ends: a stop was asked for and no position is left open.
pub fn should_stop(stop: bool, open_positions: usize) -> (r: bool)
    ensures
        r == (stop && open_positions == 0),
{
    stop && open_positions == 0
}

/// What the loop does with a pair whose prices were just refreshed.
#[derive(Debug, Clone, Copy, PartialEq, Eq)]
pub enum PairDecision {
    /// Close the open position of the pair.
    Close,
    /// Keep the open position of the pair.
    Hold,
    /// Leave the pair: one of its names is already in an open position.
    SymbolInUse,
    /// Open a position on the pair.
    Open,
    /// No position and no opportunity.
    Wait,
}

/// The decision rule: an open position is closed when its z-score came back
/// near zero (`exit_signal`) or a stop was asked for, and held otherwise; a
/// pair without position is left when one of its names is in use, opened
/// when its z-score is far from zero (`entry_signal`), fewer than `MAX_POS`
/// positions are open and no stop was asked for, and waited on otherwise.
pub open spec fn spec_decide(
    in_position: bool,
    stop: bool,
    exit_signal: bool,
    entry_signal: bool,
    symbol_in_use: bool,
    open_positions: nat,
) -> PairDecision {
    if in_position {
        if exit_signal || stop {
            PairDecision::Close
        } else {
            PairDecision::Hold
        }
    } else if symbol_in_use {
        PairDecision::SymbolInUse
    } else if entry_signal && open_positions < MAX_POS && !stop {
        PairDecision::Open
    } else {
        PairDecision::Wait
    }
}

/// Decides what to do with a pair (see `spec_decide`).
pub fn decide(
    in_position: bool,
    stop: bool,
    exit_signal: bool,
    entry_signal: bool,
    symbol_in_use: bool,
    open_positions: usize,
) -> (d: PairDecision)
    ensures
        d == spec_decide(in_position, stop, exit_signal, entry_signal, symbol_in_use, open_positions as nat),
        in_position ==> (d == PairDecision::Close <==> (exit_signal || stop)),
        in_position && !(exit_signal || stop) ==> d == PairDecision::Hold,
        !in_position ==> (d == PairDecision::SymbolInUse <==> symbol_in_use),
        !in_position ==> (d == PairDecision::Open <==> (!symbol_in_use && entry_signal
            && open_positions < MAX_POS && !stop)),
        !in_position && !symbol_in_use && !(entry_signal && open_positions < MAX_POS && !stop)
            ==> d == PairDecision::Wait,
{
    if in_position {
        if exit_signal || stop {
            PairDecision::Close
        } else {
            PairDecision::Hold
        }
    } else if symbol_in_use {
        PairDecision::SymbolInUse
    } else if entry_signal && open_positions < MAX_POS && !stop {
        PairDecision::Open
    } else {
        PairDecision::Wait
    }
}

/// The number of open positions once a decision is carried out.
pub open spec fn positions_after(d: PairDecision, open_positions: nat) -> nat {
    match d {
        PairDecision::Open => open_positions + 1,
        PairDecision::Close => (open_positions - 1) as nat,
        _ => open_positions,
    }
}

/// The loop never holds more than `MAX_POS` positions, never opens one
/// while stopping or on a pair already in position or sharing a name with
/// an open position, and closes every position it meets once a stop was
/// asked for.
pub proof fn lemma_decision_safety(
    in_position: bool,
    stop: bool,
    exit_signal: bool,
    entry_signal: bool,
    symbol_in_use: bool,
    open_positions: nat,
)
    requires
        open_positions <= MAX_POS,
        in_position ==> open_positions > 0,
    ensures
        ({
            let d = spec_decide(in_position, stop, exit_signal, entry_signal, symbol_in_use, open_positions);
            &&& positions_after(d, open_positions) <= MAX_POS
            &&& d == PairDecision::Open ==> !stop && !in_position && !symbol_in_use
            &&& stop && in_position ==> d == PairDecision::Close
            &&& stop ==> positions_after(d, open_positions) <= open_positions
        }),
{
}

/// What each decision means. With a position open on the pair, it is closed
/// exactly when the z-score is back near zero or a stop was asked for, and
/// held otherwise. Without one, the pair is left exactly when one of its
/// names is in use; otherwise a position is opened exactly when the z-score
/// is far from zero, fewer than `MAX_POS` positions are open and no stop was
/// asked for, and the loop waits otherwise. In particular nothing is opened
/// without the entry signal, and nothing is closed without the exit signal
/// unless a stop was asked for.
pub proof fn lemma_decision_rule(
    in_position: bool,
    stop: bool,
    exit_signal: bool,
    entry_signal: bool,
    symbol_in_use: bool,
    open_positions: nat,
)
    ensures
        ({
            let d = spec_decide(in_position, stop, exit_signal, entry_signal, symbol_in_use, open_positions);
            &&& in_position ==> (d == PairDecision::Close || d == PairDecision::Hold)
            &&& in_position ==> (d == PairDecision::Close <==> (exit_signal || stop))
            &&& in_position && !stop ==> (d == PairDecision::Close <==> exit_signal)
            &&& !in_position ==> (d == PairDecision::SymbolInUse || d == PairDecision::Open
                || d == PairDecision::Wait)
            &&& !in_position ==> (d == PairDecision::SymbolInUse <==> symbol_in_use)
            &&& !in_position ==> (d == PairDecision::Open <==> (!symbol_in_use && entry_signal
                && open_positions < MAX_POS && !stop))
            &&& !in_position && d == PairDecision::Open ==> entry_signal
            &&& !in_position && !entry_signal ==> d != PairDecision::Open
        }),
{
}

/// The open positions, each under the identifier of its pair. There are
/// never more than `MAX_POS` of them and no identifier occurs twice.
pub struct PositionBook<T> {
    entries: Vec<(String, T)>,
}

impl<T> PositionBook<T> {
    /// The identifiers and positions held, in the order they were opened.
    pub closed spec fn entries(&self) -> Seq<(Seq<char>, T)> {
        self.entries@.map_values(|e: (String, T)| (e.0@, e.1))
    }

    /// The identifiers of the open positions, in the order they were opened.
    pub open spec fn ids(&self) -> Seq<Seq<char>> {
        self.entries().map_values(|e: (Seq<char>, T)| e.0)
    }

    #[verifier::type_invariant]
    closed spec fn book_invariant(&self) -> bool {
        &&& self.entries@.len() <= MAX_POS
        &&& self.ids().no_duplicates()
    }

    /// An empty book.
    pub fn new() -> (b: Self)
        ensures
            b.entries() == Seq::<(Seq<char>, T)>::empty(),
    {
        let b = PositionBook { entries: Vec::new() };
        assert(b.entries() =~= Seq::<(Seq<char>, T)>::empty());
        assert(b.ids() =~= Seq::<Seq<char>>::empty());
        b
    }

    fn index_of(&self, id: &str) -> (r: Option<usize>)
        ensures
            match r {
                Some(k) => k < self.entries().len() && self.entries()[k as int].0 == id@,
                None => !self.ids().contains(id@),
            },
    {
        let n = self.entries.len();
        let mut k: usize = 0;
        while k < n
            invariant
                n == self.entries@.len(),
                k <= n,
                forall|m: int| 0 <= m < k ==> (#[trigger] self.entries@[m]).0@ != id@,
            decreases n - k,
        {
            if same_text(self.entries[k].0.as_str(), id) {
                return Some(k);
            }
            k = k + 1;
        }
        proof {
            if self.ids().contains(id@) {
                let m = choose|m: int| 0 <= m < self.ids().len() && self.ids()[m] == id@;
                assert(self.ids()[m] == self.entries@[m].0@);
            }
        }
        None
    }

    /// The number of open positions, at most `MAX_POS`.
    pub fn len(&self) -> (n: usize)
        ensures
            n == self.entries().len(),
            n <= MAX_POS,
    {
        proof {
            use_type_invariant(self);
        }
        self.entries.len()
    }

    /// Whether a position is open on the pair `id`.
    pub fn contains(&self, id: &str) -> (r: bool)
        ensures
            r == self.ids().contains(id@),
    {
        match self.index_of(id) {
            Some(k) => {
                assert(self.ids()[k as int] == self.entries()[k as int].0);
                true
            },
            None => false,
        }
    }

    /// The position open on the pair `id`, if any.
    pub fn get(&self, id: &str) -> (r: Option<&T>)
        ensures
            match r {
                Some(p) => exists|k: int|
                    0 <= k < self.entries().len() && #[trigger] self.entries()[k] == (id@, *p),
                None => !self.ids().contains(id@),
            },
    {
        match self.index_of(id) {
            Some(k) => {
                let p = &self.entries[k].1;
                assert(self.entries()[k as int] == (id@, *p));
                Some(p)
            },
            None => None,
        }
    }

    /// The identifiers of the open positions, each once.
    pub fn ids_vec(&self) -> (v: Vec<String>)
        ensures
            names_view(v@) == self.ids(),
            names_view(v@).no_duplicates(),
    {
        proof {
            use_type_invariant(self);
        }
        let n = self.entries.len();
        let mut v: Vec<String> = Vec::new();
        let mut k: usize = 0;
        while k < n
            invariant
                n == self.entries@.len(),
                k <= n,
                names_view(v@) == self.ids().take(k as int),
            decreases n - k,
        {
            let ghost v_old = v@;
            let id_k = self.entries[k].0.clone();
            v.push(id_k);
            assert(names_view(v@) =~= names_view(v_old).push(self.entries@[k as int].0@));
            assert(self.ids()[k as int] == self.entries()[k as int].0);
            assert(self.entries()[k as int].0 == self.entries@[k as int].0@);
            assert(names_view(v@) =~= self.ids().take(k + 1));
            k = k + 1;
        }
        assert(self.ids().take(n as int) =~= self.ids());
        v
    }

    /// Records a position opened on the pair `id`; there must be room for it
    /// and none open on that pair already.
    pub fn open(&mut self, id: &str, position: T)
        requires
            old(self).entries().len() < MAX_POS,
            !old(self).ids().contains(id@),
        ensures
            final(self).entries() == old(self).entries().push((id@, position)),
    {
        proof {
            use_type_invariant(&*self);
        }
        let ghost before = self.entries();
        let ghost before_ids = self.ids();
        let entry = (id.to_owned(), position);
        let mut entries: Vec<(String, T)> = Vec::new();
        std::mem::swap(&mut entries, &mut self.entries);
        entries.push(entry);
        assert(entries@.map_values(|e: (String, T)| (e.0@, e.1)) =~= before.push((id@, position)));
        let ghost new_ids = entries@.map_values(|e: (String, T)| (e.0@, e.1)).map_values(
            |e: (Seq<char>, T)| e.0,
        );
        assert(new_ids =~= before_ids.push(id@));
        assert forall|i: int, j: int| 0 <= i < new_ids.len() && 0 <= j < new_ids.len() && i != j implies new_ids[i] != new_ids[j] by {
            if i < before_ids.len() && j < before_ids.len() {
                assert(new_ids[i] == before_ids[i] && new_ids[j] == before_ids[j]);
            } else if i < before_ids.len() {
                assert(new_ids[i] == before_ids[i]);
                assert(before_ids.contains(before_ids[i]));
            } else {
                assert(new_ids[j] == before_ids[j]);
                assert(before_ids.contains(before_ids[j]));
            }
        }
        self.entries = entries;
    }

    /// Removes the position open on the pair `id` and gives it back; `None`,
    /// and the book unchanged, when there is none.
    pub fn close(&mut self, id: &str) -> (r: Option<T>)
        ensures
            match r {
                Some(p) => exists|k: int|
                    0 <= k < old(self).entries().len() && old(self).entries()[k] == (id@, p)
                        && final(self).entries() == old(self).entries().remove(k),
                None => !old(self).ids().contains(id@) && final(self).entries() == old(self).entries(),
            },
    {
        match self.index_of(id) {
            Some(k) => {
                let ghost before = self.entries();
                let ghost before_ids = self.ids();
                proof {
                    use_type_invariant(&*self);
                }
                let mut entries: Vec<(String, T)> = Vec::new();
        std::mem::swap(&mut entries, &mut self.entries);
                let removed = entries.remove(k);
                assert(entries@.map_values(|e: (String, T)| (e.0@, e.1)) =~= before.remove(k as int));
                let ghost new_ids = entries@.map_values(|e: (String, T)| (e.0@, e.1)).map_values(
                    |e: (Seq<char>, T)| e.0,
                );
                assert(new_ids =~= before_ids.remove(k as int));
                self.entries = entries;
                Some(removed.1)
            },
            None => None,
        }
    }
}

/// The index of the entry for the "USD" coin in a balance (the last one
/// when several are listed), if any.
pub fn usd_balance_index(coins: &Vec<String>) -> (r: Option<usize>)
    ensures
        match r {
            Some(k) => k < coins@.len() && coins@[k as int]@ == "USD"@ && forall|j: int|
                k < j < coins@.len() ==> (#[trigger] coins@[j])@ != "USD"@,
            None => forall|j: int| 0 <= j < coins@.len() ==> (#[trigger] coins@[j])@ != "USD"@,
        },
{
    let usd = "USD".to_owned();
    let n = coins.len();
    let mut found: Option<usize> = None;
    let mut k: usize = 0;
    while k < n
        invariant
            n == coins@.len(),
            usd@ == "USD"@,
            k <= n,
            match found {
                Some(f) => f < k && coins@[f as int]@ == "USD"@ && forall|j: int|
                    f < j < k ==> (#[trigger] coins@[j])@ != "USD"@,
                None => forall|j: int| 0 <= j < k ==> (#[trigger] coins@[j])@ != "USD"@,
            },
        decreases n - k,
    {
        if coins[k].eq(&usd) {
            found = Some(k);
        }
        k = k + 1;
    }
    found
}

} // verus!
