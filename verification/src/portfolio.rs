//! The holdings model: one account's positions, with the ignore list applied.

use vstd::prelude::*;
use vstd::string::StrSliceExecFns;

use crate::{Dollar, MAX_MONEY};

verus! {

/// One holding inside one account.
#[derive(Debug, Clone)]
pub struct Position {
    /// Normalized ticker, stripped of any provider-specific core marker.
    pub symbol: String,
    /// Current dollar value in cents; non-negative in well-formed input.
    pub current_value: Dollar,
    /// True iff this position is the account's designated cash/core reserve.
    pub is_core: bool,
    /// Set once after load from the user-supplied ignore list.
    pub ignored: bool,
}

/// One account's positions, keyed by the account number.
#[derive(Debug)]
pub struct AccountBalance {
    pub account_number: String,
    pub positions: Vec<Position>,
}

/// All accounts read from one balances file.
#[derive(Debug)]
pub struct Portfolio {
    pub accounts: Vec<AccountBalance>,
}

/// The closed set of supported brokerage providers.
#[derive(Debug, Clone, PartialEq, Eq)]
pub enum Provider {
    Fidelity,
}

/// True iff some position in `ps` carries the symbol `sym`.
pub open spec fn holds_symbol(ps: Seq<Position>, sym: Seq<char>) -> bool {
    exists|i: int| 0 <= i < ps.len() && ps[i].symbol@ == sym
}

/// The current value of the first position in `ps` carrying `sym`,
/// or 0 when no position does.
pub open spec fn value_of(ps: Seq<Position>, sym: Seq<char>) -> int
    decreases ps.len(),
{
    if ps.len() == 0 {
        0
    } else if ps[0].symbol@ == sym {
        ps[0].current_value as int
    } else {
        value_of(ps.drop_first(), sym)
    }
}

/// The ignore flag of the first position in `ps` carrying `sym`,
/// or false when no position does.
pub open spec fn ignored_of(ps: Seq<Position>, sym: Seq<char>) -> bool
    decreases ps.len(),
{
    if ps.len() == 0 {
        false
    } else if ps[0].symbol@ == sym {
        ps[0].ignored
    } else {
        ignored_of(ps.drop_first(), sym)
    }
}

/// The core flag of the first position in `ps` carrying `sym`,
/// or false when no position does.
pub open spec fn core_flag_of(ps: Seq<Position>, sym: Seq<char>) -> bool
    decreases ps.len(),
{
    if ps.len() == 0 {
        false
    } else if ps[0].symbol@ == sym {
        ps[0].is_core
    } else {
        core_flag_of(ps.drop_first(), sym)
    }
}

/// The total value, in cents, of the positions not marked ignored.
pub open spec fn sum_non_ignored(ps: Seq<Position>) -> int
    decreases ps.len(),
{
    if ps.len() == 0 {
        0
    } else {
        sum_non_ignored(ps.drop_last()) + if ps.last().ignored {
            0
        } else {
            ps.last().current_value as int
        }
    }
}

/// Well-formed holdings: every value is a non-negative amount the engine
/// can do arithmetic on, and symbols are unique within the account.
pub open spec fn positions_wf(ps: Seq<Position>) -> bool {
    &&& forall|i: int| 0 <= i < ps.len() ==> 0 <= #[trigger] ps[i].current_value <= MAX_MONEY
    &&& forall|i: int, j: int| 0 <= i < j < ps.len() ==> ps[i].symbol@ != ps[j].symbol@
}

impl AccountBalance {
    /// Well-formed snapshot, as the loader produces it.
    pub open spec fn wf(&self) -> bool {
        positions_wf(self.positions@)
    }
}

/// The first position of `ps` carrying `sym`, scanning in order.
pub(crate) fn find_position(ps: &Vec<Position>, sym: &String) -> (r: Option<usize>)
    ensures
        (match r {
            Some(i) => i < ps@.len() && ps@[i as int].symbol@ == sym@ && (forall|j: int|
                0 <= j < i ==> (#[trigger] ps@[j]).symbol@ != sym@),
            None => !holds_symbol(ps@, sym@),
        }),
{
    let mut i: usize = 0;
    while i < ps.len()
        invariant
            i <= ps@.len(),
            forall|j: int| 0 <= j < i ==> (#[trigger] ps@[j]).symbol@ != sym@,
        decreases ps@.len() - i,
    {
        if ps[i].symbol == *sym {
            return Some(i);
        }
        i = i + 1;
    }
    None
}

/// At the first position carrying `sym`, the lookup functions read off that
/// position's fields.
pub proof fn lemma_lookup_at(ps: Seq<Position>, sym: Seq<char>, k: int)
    requires
        0 <= k < ps.len(),
        ps[k].symbol@ == sym,
        forall|j: int| 0 <= j < k ==> (#[trigger] ps[j]).symbol@ != sym,
    ensures
        holds_symbol(ps, sym),
        value_of(ps, sym) == ps[k].current_value,
        ignored_of(ps, sym) == ps[k].ignored,
        core_flag_of(ps, sym) == ps[k].is_core,
    decreases k,
{
    if k > 0 {
        lemma_lookup_at(ps.drop_first(), sym, k - 1);
    }
}

/// When no position carries `sym`, the lookup functions yield the defaults.
pub proof fn lemma_lookup_absent(ps: Seq<Position>, sym: Seq<char>)
    requires
        !holds_symbol(ps, sym),
    ensures
        value_of(ps, sym) == 0,
        ignored_of(ps, sym) == false,
        core_flag_of(ps, sym) == false,
    decreases ps.len(),
{
    if ps.len() > 0 {
        assert(ps[0].symbol@ != sym);
        assert(!holds_symbol(ps.drop_first(), sym)) by {
            assert(forall|i: int|
                0 <= i < ps.drop_first().len() ==> #[trigger] ps.drop_first()[i] == ps[i + 1]);
        }
        lemma_lookup_absent(ps.drop_first(), sym);
    }
}

/// Extending a prefix by the position at `i` adds its non-ignored value.
pub proof fn lemma_sum_non_ignored_step(ps: Seq<Position>, i: int)
    requires
        0 <= i < ps.len(),
    ensures
        sum_non_ignored(ps.subrange(0, i + 1)) == sum_non_ignored(ps.subrange(0, i)) + (if ps[i].ignored {
            0
        } else {
            ps[i].current_value as int
        }),
{
    assert(ps.subrange(0, i + 1).drop_last() =~= ps.subrange(0, i));
}

/// With non-negative values, a prefix never sums to more than the whole.
pub proof fn lemma_sum_non_ignored_prefix_le(ps: Seq<Position>, i: int)
    requires
        forall|k: int| 0 <= k < ps.len() ==> 0 <= (#[trigger] ps[k]).current_value,
        0 <= i <= ps.len(),
    ensures
        sum_non_ignored(ps.subrange(0, i)) <= sum_non_ignored(ps),
    decreases ps.len() - i,
{
    if i == ps.len() {
        assert(ps.subrange(0, i) =~= ps);
    } else {
        lemma_sum_non_ignored_step(ps, i);
        lemma_sum_non_ignored_prefix_le(ps, i + 1);
    }
}

/// `p` with its ignore flag raised and everything else unchanged.
pub open spec fn mark_ignored(p: Position) -> Position {
    Position { symbol: p.symbol, current_value: p.current_value, is_core: p.is_core, ignored: true }
}

/// Law: marking one position ignored removes exactly its value from the
/// total that the engine distributes, and touches nothing else.
pub proof fn lemma_ignore_exclusion(ps: Seq<Position>, i: int)
    requires
        0 <= i < ps.len(),
        !ps[i].ignored,
    ensures
        sum_non_ignored(ps.update(i, mark_ignored(ps[i]))) == sum_non_ignored(ps)
            - ps[i].current_value,
    decreases ps.len(),
{
    let updated = ps.update(i, mark_ignored(ps[i]));
    if i == ps.len() - 1 {
        assert(updated.drop_last() =~= ps.drop_last());
    } else {
        assert(updated.drop_last() =~= ps.drop_last().update(i, mark_ignored(ps[i])));
        lemma_ignore_exclusion(ps.drop_last(), i);
    }
}

/// The numeric code of `c` with an ASCII capital letter folded to lower
/// case; other characters keep their own code.
pub open spec fn lower_code(c: char) -> int {
    if 65 <= c as int && c as int <= 90 {
        c as int + 32
    } else {
        c as int
    }
}

/// Equality of two symbols up to ASCII case.
pub open spec fn eq_ignore_case(a: Seq<char>, b: Seq<char>) -> bool {
    a.len() == b.len() && forall|i: int| 0 <= i < a.len() ==> lower_code(a[i]) == lower_code(b[i])
}

/// True iff some entry of `list` matches `sym` up to ASCII case.
pub open spec fn in_ignore_list(list: Seq<String>, sym: Seq<char>) -> bool {
    exists|j: int| 0 <= j < list.len() && eq_ignore_case((#[trigger] list[j])@, sym)
}

/// The code of `c`, with capital ASCII letters folded to lower case.
fn lower_char_code(c: char) -> (code: u32)
    ensures
        code == lower_code(c),
{
    let x = c as u32;
    if 65 <= x && x <= 90 {
        x + 32
    } else {
        x
    }
}

/// Whether `a` and `b` are the same symbol up to ASCII case.
fn eq_ignore_ascii_case_str(a: &str, b: &str) -> (r: bool)
    ensures
        r == eq_ignore_case(a@, b@),
{
    let alen = a.unicode_len();
    let blen = b.unicode_len();
    if alen != blen {
        return false;
    }
    let mut i: usize = 0;
    while i < alen
        invariant
            i <= alen,
            forall|j: int| 0 <= j < i ==> lower_code(a@[j]) == lower_code(b@[j]),
        decreases alen - i,
    {
        let ca = a.get_char(i);
        let cb = b.get_char(i);
        if lower_char_code(ca) != lower_char_code(cb) {
            return false;
        }
        i = i + 1;
    }
    true
}

/// Whether some entry of `list` names `sym`, compared up to ASCII case.
fn in_list(list: &Vec<String>, sym: &String) -> (r: bool)
    ensures
        r == in_ignore_list(list@, sym@),
{
    let mut j: usize = 0;
    while j < list.len()
        invariant
            j <= list@.len(),
            forall|k: int| 0 <= k < j ==> !eq_ignore_case((#[trigger] list@[k])@, sym@),
        decreases list@.len() - j,
    {
        if eq_ignore_ascii_case_str(list[j].as_str(), sym.as_str()) {
            return true;
        }
        j = j + 1;
    }
    false
}

impl AccountBalance {
    /// Marks every position whose symbol case-insensitively matches an entry
    /// of `ignored`; positions already marked stay marked, everything else
    /// is untouched. A listed symbol that no position carries is no error.
    pub fn set_ignored(&mut self, ignored: &Vec<String>)
        ensures
            final(self).account_number == old(self).account_number,
            final(self).positions@.len() == old(self).positions@.len(),
            forall|i: int|
                0 <= i < old(self).positions@.len() ==> {
                    let before = old(self).positions@[i];
                    let after = #[trigger] final(self).positions@[i];
                    &&& after.symbol == before.symbol
                    &&& after.current_value == before.current_value
                    &&& after.is_core == before.is_core
                    &&& after.ignored == (before.ignored || in_ignore_list(ignored@, before.symbol@))
                },
    {
        let n = self.positions.len();
        let mut updated: Vec<Position> = Vec::new();
        let mut i: usize = 0;
        while i < n
            invariant
                n == old(self).positions@.len(),
                self.positions@ == old(self).positions@,
                self.account_number == old(self).account_number,
                i <= n,
                updated@.len() == i,
                forall|k: int|
                    0 <= k < i ==> {
                        let before = old(self).positions@[k];
                        let after = #[trigger] updated@[k];
                        &&& after.symbol == before.symbol
                        &&& after.current_value == before.current_value
                        &&& after.is_core == before.is_core
                        &&& after.ignored == (before.ignored || in_ignore_list(
                            ignored@,
                            before.symbol@,
                        ))
                    },
            decreases n - i,
        {
            let hit = in_list(ignored, &self.positions[i].symbol);
            let p = &self.positions[i];
            updated.push(
                Position {
                    symbol: p.symbol.clone(),
                    current_value: p.current_value,
                    is_core: p.is_core,
                    ignored: p.ignored || hit,
                },
            );
            i = i + 1;
        }
        self.positions = updated;
    }
}

} // verus!
