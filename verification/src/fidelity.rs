//! Loader logic for the Fidelity balances format.
//!
//! The loader proper — reading a file — lives outside the library; the
//! functions here turn the rows it yields into the holdings model: dollar
//! strings become cents, core markers become flags, duplicate symbol rows
//! are merged additively, and rows are grouped into accounts.

use vstd::prelude::*;
use vstd::string::StrSliceExecFns;

use crate::portfolio::{find_position, AccountBalance, Position};
use crate::MAX_MONEY;

verus! {

/// Why loading a balances file failed.
#[derive(Debug, Clone, PartialEq, Eq)]
pub enum LoadError {
    /// The header row does not look like the Fidelity balances format.
    UnexpectedFileFormat,
    /// A row is too short for a value, or its value does not parse.
    MissingValue,
    /// A pending-activity row appeared before its account's core position.
    NoCoreForPendingActivity,
    /// A merged value left the range the engine can compute with.
    ValueOutOfRange,
}

/// The columns of a Fidelity balances file that the loader reads.
pub enum Columns {
    AccountNumber,
    AccountName,
    Symbol,
    CurrentValue,
}

impl Columns {
    /// The zero-based position of this column in a balances row.
    pub open spec fn spec_index(&self) -> usize {
        match self {
            Columns::AccountNumber => 0,
            Columns::AccountName => 1,
            Columns::Symbol => 2,
            Columns::CurrentValue => 7,
        }
    }

    /// The zero-based position of this column in a balances row.
    pub fn index(&self) -> (i: usize)
        ensures
            i == self.spec_index(),
    {
        match self {
            Columns::AccountNumber => 0,
            Columns::AccountName => 1,
            Columns::Symbol => 2,
            Columns::CurrentValue => 7,
        }
    }
}

/// `c` is an ASCII decimal digit.
pub open spec fn is_digit(c: char) -> bool {
    48 <= c as int <= 57
}

/// The value of the digit `c`.
pub open spec fn digit_val(c: char) -> int {
    c as int - 48
}

/// Every character of `s` is a decimal digit.
pub open spec fn all_digits(s: Seq<char>) -> bool {
    forall|i: int| 0 <= i < s.len() ==> is_digit(s[i])
}

/// The number that the digit string `s` spells in base ten.
pub open spec fn digits_val(s: Seq<char>) -> int
    decreases s.len(),
{
    if s.len() == 0 {
        0
    } else {
        digits_val(s.drop_last()) * 10 + digit_val(s.last())
    }
}

/// `s` with every dollar sign removed.
pub open spec fn strip_dollars(s: Seq<char>) -> Seq<char>
    decreases s.len(),
{
    if s.len() == 0 {
        Seq::empty()
    } else {
        let rest = strip_dollars(s.drop_last());
        if s.last() == '$' {
            rest
        } else {
            rest.push(s.last())
        }
    }
}

/// The index of the first decimal point of `s`, or its length when there is
/// none.
pub open spec fn dot_index(s: Seq<char>) -> int
    decreases s.len(),
{
    if s.len() == 0 {
        0
    } else if s[0] == '.' {
        0
    } else {
        1 + dot_index(s.drop_first())
    }
}

/// What one unit of a fraction part of `n` digits is worth, in cents.
pub open spec fn frac_scale(n: int) -> int {
    if n == 0 {
        100
    } else if n == 1 {
        10
    } else {
        1
    }
}

/// The value in cents of the unsigned dollar string `u`: an integer part
/// and/or a fraction part of at most two digits around an optional decimal
/// point, with at least one digit in all.
pub open spec fn spec_parse_unsigned(u: Seq<char>) -> Option<int> {
    let di = dot_index(u);
    if di == u.len() {
        if u.len() > 0 && all_digits(u) {
            Option::Some(digits_val(u) * 100)
        } else {
            Option::None
        }
    } else {
        let intpart = u.subrange(0, di);
        let frac = u.subrange(di + 1, u.len() as int);
        if all_digits(intpart) && all_digits(frac) && intpart.len() + frac.len() > 0 && frac.len()
            <= 2 {
            Option::Some(digits_val(intpart) * 100 + digits_val(frac) * frac_scale(frac.len() as int))
        } else {
            Option::None
        }
    }
}

/// The value in cents of the dollar string `s`: dollar signs are dropped, a
/// single leading minus is honoured, and a value whose magnitude exceeds
/// [`MAX_MONEY`] is rejected.
pub open spec fn spec_parse_money(s: Seq<char>) -> Option<int> {
    let t = strip_dollars(s);
    let neg = t.len() > 0 && t[0] == '-';
    let u = if neg {
        t.drop_first()
    } else {
        t
    };
    match spec_parse_unsigned(u) {
        Option::None => Option::None,
        Option::Some(m) => {
            let v = if neg {
                -m
            } else {
                m
            };
            if -MAX_MONEY <= v <= MAX_MONEY {
                Option::Some(v)
            } else {
                Option::None
            }
        },
    }
}

/// Extending a prefix by the character at `i` either keeps the stripped
/// sequence (a dollar sign) or appends that character.
proof fn lemma_strip_dollars_step(s: Seq<char>, i: int)
    requires
        0 <= i < s.len(),
    ensures
        strip_dollars(s.subrange(0, i + 1)) == (if s[i] == '$' {
            strip_dollars(s.subrange(0, i))
        } else {
            strip_dollars(s.subrange(0, i)).push(s[i])
        }),
{
    assert(s.subrange(0, i + 1).drop_last() =~= s.subrange(0, i));
}

/// `dot_index` names the first decimal point.
proof fn lemma_dot_index_found(s: Seq<char>, k: int)
    requires
        0 <= k < s.len(),
        s[k] == '.',
        forall|j: int| 0 <= j < k ==> s[j] != '.',
    ensures
        dot_index(s) == k,
    decreases k,
{
    if k > 0 {
        lemma_dot_index_found(s.drop_first(), k - 1);
    }
}

/// Without a decimal point, `dot_index` is the length.
proof fn lemma_dot_index_none(s: Seq<char>)
    requires
        forall|j: int| 0 <= j < s.len() ==> s[j] != '.',
    ensures
        dot_index(s) == s.len(),
    decreases s.len(),
{
    if s.len() > 0 {
        lemma_dot_index_none(s.drop_first());
    }
}

/// Extending a digit prefix by the digit at `i` multiplies by ten and adds it.
proof fn lemma_digits_val_step(s: Seq<char>, i: int)
    requires
        0 <= i < s.len(),
    ensures
        digits_val(s.subrange(0, i + 1)) == digits_val(s.subrange(0, i)) * 10 + digit_val(s[i]),
{
    assert(s.subrange(0, i + 1).drop_last() =~= s.subrange(0, i));
}

/// A digit string never spells a negative number.
proof fn lemma_digits_val_nonneg(s: Seq<char>)
    requires
        all_digits(s),
    ensures
        digits_val(s) >= 0,
    decreases s.len(),
{
    if s.len() > 0 {
        assert(all_digits(s.drop_last()));
        lemma_digits_val_nonneg(s.drop_last());
    }
}

/// A prefix of a digit string never spells more than the whole.
proof fn lemma_digits_val_prefix_le(s: Seq<char>, i: int)
    requires
        all_digits(s),
        0 <= i <= s.len(),
    ensures
        digits_val(s.subrange(0, i)) <= digits_val(s),
    decreases s.len() - i,
{
    if i == s.len() {
        assert(s.subrange(0, i) =~= s);
    } else {
        lemma_digits_val_step(s, i);
        assert(all_digits(s.subrange(0, i)));
        lemma_digits_val_nonneg(s.subrange(0, i));
        lemma_digits_val_prefix_le(s, i + 1);
    }
}

/// A digit string of at most two characters spells at most 99.
proof fn lemma_digits_val_two(s: Seq<char>)
    requires
        all_digits(s),
        s.len() <= 2,
    ensures
        digits_val(s) <= 99,
{
    reveal_with_fuel(digits_val, 3);
    if s.len() > 0 {
        assert(is_digit(s[0]));
        assert(all_digits(s.drop_last()));
        if s.len() == 2 {
            assert(is_digit(s[1]));
            assert(s.drop_last().drop_last() =~= Seq::<char>::empty());
            assert(digits_val(s.drop_last()) == digit_val(s[0]));
        } else {
            assert(s.drop_last() =~= Seq::<char>::empty());
            assert(digits_val(s) == digit_val(s[0]));
        }
    }
}

/// Reads `t[lo..hi]` as a digit string, refusing a non-digit or a value
/// beyond [`MAX_MONEY`].
fn parse_digits(t: &Vec<char>, lo: usize, hi: usize) -> (r: Option<i64>)
    requires
        lo <= hi <= t@.len(),
    ensures
        (match r {
            Some(v) => all_digits(t@.subrange(lo as int, hi as int)) && 0 <= v <= MAX_MONEY && v
                == digits_val(t@.subrange(lo as int, hi as int)),
            None => !all_digits(t@.subrange(lo as int, hi as int)) || digits_val(
                t@.subrange(lo as int, hi as int),
            ) > MAX_MONEY,
        }),
{
    let ghost part: Seq<char> = t@.subrange(lo as int, hi as int);
    let mut val: i64 = 0;
    let mut m: usize = lo;
    while m < hi
        invariant
            lo <= m <= hi,
            0 <= val <= MAX_MONEY,
            all_digits(part.subrange(0, m - lo)),
            val == digits_val(part.subrange(0, m - lo)),
        decreases hi - m,
    {
        let c = t[m];
        proof {
            assert(part[m - lo] == t@[m as int]);
            lemma_digits_val_step(part, m - lo);
        }
        let dv: i64 = match c {
            '0' => 0,
            '1' => 1,
            '2' => 2,
            '3' => 3,
            '4' => 4,
            '5' => 5,
            '6' => 6,
            '7' => 7,
            '8' => 8,
            '9' => 9,
            _ => {
                return None;
            },
        };
        val = val * 10 + dv;
        proof {
            assert(all_digits(part.subrange(0, m + 1 - lo))) by {
                assert(forall|i2: int|
                    0 <= i2 < m + 1 - lo ==> part.subrange(0, m + 1 - lo)[i2] == #[trigger] part[i2]);
                assert(forall|i2: int|
                    0 <= i2 < m - lo ==> part.subrange(0, m - lo)[i2] == #[trigger] part[i2]);
            }
        }
        if val > MAX_MONEY {
            proof {
                if all_digits(part) {
                    lemma_digits_val_prefix_le(part, m + 1 - lo);
                }
            }
            return None;
        }
        m = m + 1;
    }
    proof {
        assert(part.subrange(0, hi - lo) =~= part);
    }
    Some(val)
}

/// Parses a dollar amount such as `$1234.56` to cents: dollar signs are
/// dropped wherever they stand, a single leading minus is honoured, and an
/// optional decimal point may carry at most two fraction digits.
pub fn parse_dollar(s: &str) -> (r: Option<i64>)
    ensures
        (match r {
            Some(v) => spec_parse_money(s@) == Option::Some(v as int),
            None => spec_parse_money(s@) is None,
        }),
{
    let n = s.unicode_len();
    let mut t: Vec<char> = Vec::new();
    let mut i: usize = 0;
    while i < n
        invariant
            i <= n,
            t@ == strip_dollars(s@.subrange(0, i as int)),
        decreases n - i,
    {
        proof {
            lemma_strip_dollars_step(s@, i as int);
        }
        let c = s.get_char(i);
        if c != '$' {
            t.push(c);
        }
        i = i + 1;
    }
    proof {
        assert(s@.subrange(0, n as int) =~= s@);
    }
    let tl = t.len();
    let neg = tl > 0 && t[0] == '-';
    let start: usize = if neg {
        1
    } else {
        0
    };
    let ghost u: Seq<char> = t@.subrange(start as int, tl as int);
    proof {
        if neg {
            assert(u =~= t@.drop_first());
        } else {
            assert(u =~= t@);
        }
    }
    if tl == start {
        // nothing besides an optional sign
        return None;
    }
    // find the first decimal point
    let mut j: usize = start;
    while j < tl && t[j] != '.'
        invariant
            start <= j <= tl,
            forall|m: int| start <= m < j ==> t@[m] != '.',
        decreases tl - j,
    {
        j = j + 1;
    }
    let ghost di: int = j - start;
    proof {
        if j < tl {
            lemma_dot_index_found(u, di);
        } else {
            lemma_dot_index_none(u);
        }
    }
    let ghost intpart: Seq<char> = u.subrange(0, di);
    let ghost frac: Seq<char> = if di < u.len() {
        u.subrange(di + 1, u.len() as int)
    } else {
        Seq::empty()
    };
    proof {
        if j >= tl {
            assert(intpart =~= u);
        }
    }
    // the fraction part may have at most two digits
    let flen: usize = if j < tl {
        tl - j - 1
    } else {
        0
    };
    if j < tl && flen > 2 {
        return None;
    }
    if j < tl && j == start && flen == 0 {
        // a bare decimal point spells no number
        return None;
    }
    proof {
        assert(t@.subrange(start as int, j as int) =~= intpart);
        if j < tl {
            assert(t@.subrange(j + 1 as int, tl as int) =~= frac);
        }
    }
    // integer part
    let ival: i64 = match parse_digits(&t, start, j) {
        Some(v) => v,
        None => {
            // a non-digit, or a value whose magnitude can only grow past
            // the bound once the fraction part is added
            proof {
                if all_digits(intpart) && di < u.len() && all_digits(frac) {
                    lemma_digits_val_nonneg(frac);
                }
            }
            return None;
        },
    };
    // fraction part
    let mut fval: i64 = 0;
    if j < tl {
        fval = match parse_digits(&t, j + 1, tl) {
            Some(v) => {
                proof {
                    lemma_digits_val_two(frac);
                }
                v
            },
            None => {
                proof {
                    if all_digits(frac) {
                        lemma_digits_val_two(frac);
                    }
                }
                return None;
            },
        };
    }
    let scale: i64 = if flen == 0 {
        100
    } else if flen == 1 {
        10
    } else {
        1
    };
    let total: i64 = ival * 100 + fval * scale;
    if total > MAX_MONEY {
        return None;
    }
    if neg {
        Some(-total)
    } else {
        Some(total)
    }
}

/// `s` ends with the core-position marker `**`.
pub open spec fn has_core_marker(s: Seq<char>) -> bool {
    s.len() >= 2 && s[s.len() - 1] == '*' && s[s.len() - 2] == '*'
}

/// `s` with every trailing `**` removed.
pub open spec fn strip_core_marker(s: Seq<char>) -> Seq<char>
    decreases s.len(),
{
    if has_core_marker(s) {
        strip_core_marker(s.subrange(0, s.len() - 2))
    } else {
        s
    }
}

/// The symbol of the rows that carry pending activity for the core position.
pub open spec fn pending_symbol() -> Seq<char> {
    "Pending activity"@
}

/// What the loader remembers of one position.
pub ghost struct PositionModel {
    pub symbol: Seq<char>,
    pub value: int,
    pub is_core: bool,
}

/// What the loader remembers of one account.
pub ghost struct AccountModel {
    pub number: Seq<char>,
    pub positions: Seq<PositionModel>,
}

/// The loader's view of one position; the ignore flag plays no part here.
pub open spec fn position_model(p: Position) -> PositionModel {
    PositionModel { symbol: p.symbol@, value: p.current_value as int, is_core: p.is_core }
}

/// The loader's view of one account.
pub open spec fn account_model(a: AccountBalance) -> AccountModel {
    AccountModel {
        number: a.account_number@,
        positions: a.positions@.map_values(|p: Position| position_model(p)),
    }
}

/// The loader's view of the accounts built so far.
pub open spec fn account_models(accounts: Seq<AccountBalance>) -> Seq<AccountModel> {
    accounts.map_values(|a: AccountBalance| account_model(a))
}

/// The index of the first account carrying `number`, or the length.
pub open spec fn find_account(state: Seq<AccountModel>, number: Seq<char>) -> int
    decreases state.len(),
{
    if state.len() == 0 {
        0
    } else if state[0].number == number {
        0
    } else {
        1 + find_account(state.drop_first(), number)
    }
}

/// The index of the first position carrying `sym`, or the length.
pub open spec fn find_model_position(ps: Seq<PositionModel>, sym: Seq<char>) -> int
    decreases ps.len(),
{
    if ps.len() == 0 {
        0
    } else if ps[0].symbol == sym {
        0
    } else {
        1 + find_model_position(ps.drop_first(), sym)
    }
}

/// The index of the first position flagged core, or the length.
pub open spec fn find_core(ps: Seq<PositionModel>) -> int
    decreases ps.len(),
{
    if ps.len() == 0 {
        0
    } else if ps[0].is_core {
        0
    } else {
        1 + find_core(ps.drop_first())
    }
}

/// One balances row folded into the accounts built so far. The row is known
/// to have at least seven fields; the value field must then exist and parse.
/// A pending-activity row is added to its account's core position; any other
/// row is a position, merged additively when its symbol repeats.
pub open spec fn row_step(state: Seq<AccountModel>, row: Seq<Seq<char>>) -> Result<
    Seq<AccountModel>,
    LoadError,
> {
    if row.len() <= 7 {
        Err(LoadError::MissingValue)
    } else {
        match spec_parse_money(row[7]) {
            Option::None => Err(LoadError::MissingValue),
            Option::Some(v) => {
                let s1 = if find_account(state, row[0]) == state.len() {
                    state.push(AccountModel { number: row[0], positions: Seq::empty() })
                } else {
                    state
                };
                let ai = find_account(s1, row[0]);
                let acct = s1[ai];
                if row[2] == pending_symbol() {
                    let ci = find_core(acct.positions);
                    if ci == acct.positions.len() {
                        Err(LoadError::NoCoreForPendingActivity)
                    } else {
                        let nv = acct.positions[ci].value + v;
                        if nv < -MAX_MONEY || MAX_MONEY < nv {
                            Err(LoadError::ValueOutOfRange)
                        } else {
                            Ok(
                                s1.update(
                                    ai,
                                    AccountModel {
                                        number: acct.number,
                                        positions: acct.positions.update(
                                            ci,
                                            PositionModel {
                                                symbol: acct.positions[ci].symbol,
                                                value: nv,
                                                is_core: true,
                                            },
                                        ),
                                    },
                                ),
                            )
                        }
                    }
                } else {
                    let base = strip_core_marker(row[2]);
                    let marked = has_core_marker(row[2]);
                    let pi = find_model_position(acct.positions, base);
                    if pi == acct.positions.len() {
                        Ok(
                            s1.update(
                                ai,
                                AccountModel {
                                    number: acct.number,
                                    positions: acct.positions.push(
                                        PositionModel { symbol: base, value: v, is_core: marked },
                                    ),
                                },
                            ),
                        )
                    } else {
                        let nv = acct.positions[pi].value + v;
                        if nv < -MAX_MONEY || MAX_MONEY < nv {
                            Err(LoadError::ValueOutOfRange)
                        } else {
                            Ok(
                                s1.update(
                                    ai,
                                    AccountModel {
                                        number: acct.number,
                                        positions: acct.positions.update(
                                            pi,
                                            PositionModel {
                                                symbol: base,
                                                value: nv,
                                                is_core: acct.positions[pi].is_core || marked,
                                            },
                                        ),
                                    },
                                ),
                            )
                        }
                    }
                }
            },
        }
    }
}

/// All rows folded in order into the accounts built so far; folding stops
/// quietly at the first row of fewer than seven fields.
pub open spec fn load_rows(state: Seq<AccountModel>, rows: Seq<Seq<Seq<char>>>) -> Result<
    Seq<AccountModel>,
    LoadError,
>
    decreases rows.len(),
{
    if rows.len() == 0 {
        Ok(state)
    } else if rows[0].len() < 7 {
        Ok(state)
    } else {
        match row_step(state, rows[0]) {
            Ok(s2) => load_rows(s2, rows.drop_first()),
            Err(e) => Err(e),
        }
    }
}

/// The header cell at `i` reads `name`.
pub open spec fn header_matches(hs: Seq<Seq<char>>, i: int, name: Seq<char>) -> bool {
    i < hs.len() && hs[i] == name
}

/// The header row is accepted when any of the four known columns carries
/// its expected caption.
pub open spec fn headers_ok(hs: Seq<Seq<char>>) -> bool {
    ||| header_matches(hs, 0, "AccountNumber"@)
    ||| header_matches(hs, 1, "Account Name"@)
    ||| header_matches(hs, 2, "Symbol"@)
    ||| header_matches(hs, 7, "Current Value"@)
}

/// What the loader guarantees of every account it builds: values the engine
/// can compute with, no ignore flags yet, and one position per symbol.
pub open spec fn loaded_wf(accounts: Seq<AccountBalance>) -> bool {
    forall|i: int|
        0 <= i < accounts.len() ==> {
            let ps = (#[trigger] accounts[i]).positions@;
            &&& forall|j: int|
                0 <= j < ps.len() ==> -MAX_MONEY <= (#[trigger] ps[j]).current_value <= MAX_MONEY
                    && !ps[j].ignored
            &&& forall|j: int, k: int| 0 <= j < k < ps.len() ==> ps[j].symbol@ != ps[k].symbol@
        }
}

/// `find_account` names the first account carrying `number`.
proof fn lemma_find_account_at(state: Seq<AccountModel>, number: Seq<char>, k: int)
    requires
        0 <= k <= state.len(),
        k < state.len() ==> state[k].number == number,
        forall|j: int| 0 <= j < k ==> (#[trigger] state[j]).number != number,
        k == state.len() ==> forall|j: int|
            0 <= j < state.len() ==> (#[trigger] state[j]).number != number,
    ensures
        find_account(state, number) == k,
    decreases state.len(),
{
    if state.len() > 0 && k > 0 {
        lemma_find_account_at(state.drop_first(), number, k - 1);
    }
}

/// `find_model_position` names the first position carrying `sym`.
proof fn lemma_find_model_position_at(ps: Seq<PositionModel>, sym: Seq<char>, k: int)
    requires
        0 <= k <= ps.len(),
        k < ps.len() ==> ps[k].symbol == sym,
        forall|j: int| 0 <= j < k ==> (#[trigger] ps[j]).symbol != sym,
        k == ps.len() ==> forall|j: int| 0 <= j < ps.len() ==> (#[trigger] ps[j]).symbol != sym,
    ensures
        find_model_position(ps, sym) == k,
    decreases ps.len(),
{
    if ps.len() > 0 && k > 0 {
        lemma_find_model_position_at(ps.drop_first(), sym, k - 1);
    }
}

/// `find_core` names the first position flagged core.
proof fn lemma_find_core_at(ps: Seq<PositionModel>, k: int)
    requires
        0 <= k <= ps.len(),
        k < ps.len() ==> ps[k].is_core,
        forall|j: int| 0 <= j < k ==> !(#[trigger] ps[j]).is_core,
        k == ps.len() ==> forall|j: int| 0 <= j < ps.len() ==> !(#[trigger] ps[j]).is_core,
    ensures
        find_core(ps) == k,
    decreases ps.len(),
{
    if ps.len() > 0 && k > 0 {
        lemma_find_core_at(ps.drop_first(), k - 1);
    }
}

/// The first position of `ps` flagged core, scanning in order.
fn find_core_exec(ps: &Vec<Position>) -> (r: Option<usize>)
    ensures
        (match r {
            Some(i) => i < ps@.len() && ps@[i as int].is_core && (forall|j: int|
                0 <= j < i ==> !(#[trigger] ps@[j]).is_core),
            None => forall|j: int| 0 <= j < ps@.len() ==> !(#[trigger] ps@[j]).is_core,
        }),
{
    let mut i: usize = 0;
    while i < ps.len()
        invariant
            i <= ps@.len(),
            forall|j: int| 0 <= j < i ==> !(#[trigger] ps@[j]).is_core,
        decreases ps@.len() - i,
    {
        if ps[i].is_core {
            return Some(i);
        }
        i = i + 1;
    }
    None
}

/// The first account of `accounts` carrying `number`, scanning in order.
fn find_account_exec(accounts: &Vec<AccountBalance>, number: &String) -> (r: Option<usize>)
    ensures
        (match r {
            Some(i) => i < accounts@.len() && accounts@[i as int].account_number@ == number@ && (
            forall|j: int| 0 <= j < i ==> (#[trigger] accounts@[j]).account_number@ != number@),
            None => forall|j: int|
                0 <= j < accounts@.len() ==> (#[trigger] accounts@[j]).account_number@ != number@,
        }),
{
    let mut i: usize = 0;
    while i < accounts.len()
        invariant
            i <= accounts@.len(),
            forall|j: int| 0 <= j < i ==> (#[trigger] accounts@[j]).account_number@ != number@,
        decreases accounts@.len() - i,
    {
        if accounts[i].account_number == *number {
            return Some(i);
        }
        i = i + 1;
    }
    None
}

/// `s` with every trailing core marker removed.
fn strip_marker(s: &str) -> (r: String)
    ensures
        r@ == strip_core_marker(s@),
{
    let n = s.unicode_len();
    let mut end: usize = n;
    proof {
        assert(s@.subrange(0, n as int) =~= s@);
    }
    while end >= 2 && s.get_char(end - 1) == '*' && s.get_char(end - 2) == '*'
        invariant
            end <= n,
            strip_core_marker(s@) == strip_core_marker(s@.subrange(0, end as int)),
        decreases end,
    {
        proof {
            assert(has_core_marker(s@.subrange(0, end as int)));
            assert(s@.subrange(0, end as int).subrange(0, end - 2) =~= s@.subrange(
                0,
                end as int - 2,
            ));
        }
        end = end - 2;
    }
    proof {
        assert(!has_core_marker(s@.subrange(0, end as int)));
    }
    s.substring_char(0, end).to_owned()
}

/// Whether `s` carries the core marker.
fn has_marker_exec(s: &str) -> (r: bool)
    ensures
        r == has_core_marker(s@),
{
    let n = s.unicode_len();
    n >= 2 && s.get_char(n - 1) == '*' && s.get_char(n - 2) == '*'
}

/// Builds the holdings model from the rows of a Fidelity balances file,
/// already split into cells: positions grouped by account in order of first
/// appearance, dollar strings read as cents, the core marker `**` stripped
/// into the core flag, duplicate symbol rows merged additively, and
/// pending-activity rows added to their account's core position. Rows after
/// the first one shorter than a position row are trailing matter and end
/// the reading quietly.
#[verifier::rlimit(100)]
pub fn parse_accounts(headers: &Vec<String>, rows: &Vec<Vec<String>>) -> (r: Result<
    Vec<AccountBalance>,
    LoadError,
>)
    ensures
        (match r {
            Ok(accounts) => {
                &&& headers_ok(headers.deep_view())
                &&& load_rows(Seq::empty(), rows.deep_view()) == Result::<
                    Seq<AccountModel>,
                    LoadError,
                >::Ok(account_models(accounts@))
                &&& loaded_wf(accounts@)
            },
            Err(e) => {
                &&& (e == LoadError::UnexpectedFileFormat <==> !headers_ok(headers.deep_view()))
                &&& (headers_ok(headers.deep_view()) ==> load_rows(Seq::empty(), rows.deep_view())
                    == Result::<Seq<AccountModel>, LoadError>::Err(e))
            },
        }),
{
    let ok0 = headers.len() > 0 && headers[0] == "AccountNumber".to_owned();
    let ok1 = headers.len() > 1 && headers[1] == "Account Name".to_owned();
    let ok2 = headers.len() > 2 && headers[2] == "Symbol".to_owned();
    let ok7 = headers.len() > 7 && headers[7] == "Current Value".to_owned();
    if !(ok0 || ok1 || ok2 || ok7) {
        return Err(LoadError::UnexpectedFileFormat);
    }
    let rn = rows.len();
    let ghost rows_dv: Seq<Seq<Seq<char>>> = rows.deep_view();
    let mut accounts: Vec<AccountBalance> = Vec::new();
    let mut k: usize = 0;
    proof {
        assert(account_models(accounts@) =~= Seq::<AccountModel>::empty());
        assert(rows_dv.skip(0) =~= rows_dv);
    }
    while k < rn
        invariant
            k <= rn,
            loaded_wf(accounts@),
            load_rows(Seq::empty(), rows_dv) == load_rows(
                account_models(accounts@),
                rows_dv.skip(k as int),
            ),
        decreases rn - k,
    {
        let ghost state0: Seq<AccountModel> = account_models(accounts@);
        let ghost row_dv: Seq<Seq<char>> = rows_dv[k as int];
        let row = &rows[k];
        proof {
            assert(rows_dv.skip(k as int)[0] == row_dv);
            assert(rows_dv.skip(k as int).drop_first() =~= rows_dv.skip(k as int + 1));
            assert(row_dv.len() == row@.len());
        }
        let value_col = Columns::CurrentValue.index();
        if row.len() < value_col {
            // trailing matter: reading stops here
            return Ok(accounts);
        }
        if row.len() == value_col {
            // too short for the value cell
            return Err(LoadError::MissingValue);
        }
        proof {
            assert(row_dv[7] == row@[7]@);
            assert(row_dv[0] == row@[0]@);
            assert(row_dv[2] == row@[2]@);
        }
        let v: i64 = match parse_dollar(row[value_col].as_str()) {
            Some(v) => v,
            None => {
                return Err(LoadError::MissingValue);
            },
        };
        // find the row's account, or start it
        let number = &row[Columns::AccountNumber.index()];
        let ai: usize;
        match find_account_exec(&accounts, number) {
            Some(i) => {
                proof {
                    lemma_find_account_at(state0, number@, i as int);
                }
                ai = i;
            },
            None => {
                proof {
                    lemma_find_account_at(state0, number@, state0.len() as int);
                }
                ai = accounts.len();
                accounts.push(
                    AccountBalance { account_number: number.clone(), positions: Vec::new() },
                );
                proof {
                    let pushed = state0.push(
                        AccountModel { number: number@, positions: Seq::empty() },
                    );
                    assert(account_model(accounts@[ai as int]).positions =~= Seq::<
                        PositionModel,
                    >::empty());
                    assert(account_models(accounts@) =~= pushed);
                    lemma_find_account_at(pushed, number@, ai as int);
                }
            },
        }
        let ghost s1: Seq<AccountModel> = account_models(accounts@);
        proof {
            assert(find_account(s1, row_dv[0]) == ai);
            assert(s1[ai as int].positions == accounts@[ai as int].positions@.map_values(
                |p: Position| position_model(p),
            ));
        }
        let symbol_col = Columns::Symbol.index();
        if row[symbol_col] == "Pending activity".to_owned() {
            // pending activity belongs to the account's core position
            match find_core_exec(&accounts[ai].positions) {
                None => {
                    proof {
                        lemma_find_core_at(s1[ai as int].positions, s1[ai as int].positions.len() as int);
                    }
                    return Err(LoadError::NoCoreForPendingActivity);
                },
                Some(ci) => {
                    proof {
                        lemma_find_core_at(s1[ai as int].positions, ci as int);
                    }
                    let old_value = accounts[ai].positions[ci].current_value;
                    let nv = old_value + v;
                    if nv < -MAX_MONEY || nv > MAX_MONEY {
                        return Err(LoadError::ValueOutOfRange);
                    }
                    let sym = accounts[ai].positions[ci].symbol.clone();
                    accounts[ai].positions[ci] = Position {
                        symbol: sym,
                        current_value: nv,
                        is_core: true,
                        ignored: false,
                    };
                    proof {
                        let expected = s1.update(
                            ai as int,
                            AccountModel {
                                number: s1[ai as int].number,
                                positions: s1[ai as int].positions.update(
                                    ci as int,
                                    PositionModel {
                                        symbol: s1[ai as int].positions[ci as int].symbol,
                                        value: nv as int,
                                        is_core: true,
                                    },
                                ),
                            },
                        );
                        assert(account_models(accounts@)[ai as int].positions =~= expected[ai as int].positions);
                        assert(account_models(accounts@) =~= expected);
                    }
                },
            }
        } else {
            // an ordinary position row: strip the core marker and merge
            let base = strip_marker(row[symbol_col].as_str());
            let marked = has_marker_exec(row[symbol_col].as_str());
            match find_position(&accounts[ai].positions, &base) {
                None => {
                    proof {
                        lemma_find_model_position_at(
                            s1[ai as int].positions,
                            base@,
                            s1[ai as int].positions.len() as int,
                        );
                    }
                    accounts[ai].positions.push(
                        Position { symbol: base, current_value: v, is_core: marked, ignored: false },
                    );
                    proof {
                        let expected = s1.update(
                            ai as int,
                            AccountModel {
                                number: s1[ai as int].number,
                                positions: s1[ai as int].positions.push(
                                    PositionModel {
                                        symbol: strip_core_marker(row_dv[2]),
                                        value: v as int,
                                        is_core: has_core_marker(row_dv[2]),
                                    },
                                ),
                            },
                        );
                        assert(account_models(accounts@)[ai as int].positions =~= expected[ai as int].positions);
                        assert(account_models(accounts@) =~= expected);
                    }
                },
                Some(pi) => {
                    proof {
                        lemma_find_model_position_at(s1[ai as int].positions, base@, pi as int);
                    }
                    let old_value = accounts[ai].positions[pi].current_value;
                    let nv = old_value + v;
                    if nv < -MAX_MONEY || nv > MAX_MONEY {
                        return Err(LoadError::ValueOutOfRange);
                    }
                    let was_core = accounts[ai].positions[pi].is_core;
                    accounts[ai].positions[pi] = Position {
                        symbol: base,
                        current_value: nv,
                        is_core: was_core || marked,
                        ignored: false,
                    };
                    proof {
                        let expected = s1.update(
                            ai as int,
                            AccountModel {
                                number: s1[ai as int].number,
                                positions: s1[ai as int].positions.update(
                                    pi as int,
                                    PositionModel {
                                        symbol: strip_core_marker(row_dv[2]),
                                        value: nv as int,
                                        is_core: s1[ai as int].positions[pi as int].is_core
                                            || has_core_marker(row_dv[2]),
                                    },
                                ),
                            },
                        );
                        assert(account_models(accounts@)[ai as int].positions =~= expected[ai as int].positions);
                        assert(account_models(accounts@) =~= expected);
                    }
                },
            }
        }
        k = k + 1;
    }
    proof {
        assert(rows_dv.skip(rn as int) =~= Seq::<Seq<Seq<char>>>::empty());
    }
    Ok(accounts)
}

} // verus!
