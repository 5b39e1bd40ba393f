//! Wallet ledgers: each entry converted to the reporting currency, and their
//! total.
//!
//! Converted amounts and totals are integers in hundredths of the reporting
//! currency's unit, so `20_000` stands for 200.00.

use crate::dates::{date_text, date_text_of, utc_minute_text};
use crate::display::{amount_text, decimal_text, format_amount, format_decimal};
use crate::fixed::{div_round, lemma_div_round_nearest, magnitude, rounded_quotient};
use crate::rates::RateTable;
use crate::text::{eq_ignore_ascii_case, eq_ignoring_ascii_case, fold_ascii};
use vstd::prelude::*;

verus! {

/// Hundredths in one unit of an amount.
pub const HUNDREDTHS: i128 = 100;

/// No converted amount is greater in magnitude than this: the least `i64`,
/// in hundredths, divided by the least rate.
pub const MAX_CONVERTED: i128 = 922_337_203_685_477_580_800_000_001;

/// One movement on a wallet.
#[derive(Clone, Debug, PartialEq, Eq)]
pub struct WalletEntry {
    /// The amount moved: negative for a debit, positive for a credit.
    pub amount_minor: i64,
    /// The currency of the amount.
    pub currency_code: String,
    /// Seconds since the Unix epoch at which the movement was booked.
    pub tx_date: i64,
    pub status: String,
    pub note: String,
}

/// Whether an entry takes money out of the wallet or puts it in.
#[derive(Clone, Copy, Debug, PartialEq, Eq, Structural)]
pub enum Direction {
    Debit,
    Credit,
}

/// How an amount was brought to the reporting currency.
#[derive(Clone, Copy, Debug, PartialEq, Eq, Structural)]
pub enum Conversion {
    /// The amount is in the reporting currency already.
    SameCurrency,
    /// The amount was divided by this rate, in millionths.
    AtRate(u64),
    /// The table has no rate for the currency, and the amount was taken
    /// over as if it were in the reporting currency.
    Unconverted,
}

/// One entry as a display lists it: direction and absolute amount in the
/// entry's own currency, and the amount in the reporting currency.
#[derive(Clone, Debug, PartialEq, Eq)]
pub struct LedgerLine {
    pub direction: Direction,
    /// The absolute value of the entry's amount.
    pub amount: u64,
    pub currency_code: String,
    /// The absolute amount with two decimals beside the currency code.
    pub amount_text: String,
    pub tx_date: i64,
    /// The date of the entry, to the minute and in UTC.
    pub tx_date_text: String,
    /// How the amount was brought to the reporting currency, with the rate
    /// that was used.
    pub conversion: Conversion,
    /// The amount in the reporting currency, in hundredths, with its sign.
    pub converted: i128,
}

/// A ledger prepared for display: one line for each entry, in the order of
/// the entries, and the total in the reporting currency, in hundredths and
/// as text with two decimals.
#[derive(Clone, Debug, PartialEq, Eq)]
pub struct WalletReport {
    pub lines: Vec<LedgerLine>,
    pub total: i128,
    pub total_text: String,
}

/// How an amount in the currency `code` is brought to the currency
/// `reporting` under the rates `rates`.
pub open spec fn conversion_of(
    code: Seq<char>,
    reporting: Seq<char>,
    rates: Map<Seq<char>, u64>,
) -> Conversion {
    if eq_ignoring_ascii_case(code, reporting) {
        Conversion::SameCurrency
    } else if rates.contains_key(fold_ascii(code)) {
        Conversion::AtRate(rates[fold_ascii(code)])
    } else {
        Conversion::Unconverted
    }
}

/// `amount` under `conversion`, in hundredths: divided by the rate where
/// there is one, and unchanged otherwise.
pub open spec fn apply_conversion(amount: int, conversion: Conversion) -> int {
    match conversion {
        Conversion::AtRate(rate) => div_round(amount * 100 * 1_000_000, rate as int),
        _ => amount * 100,
    }
}

/// The amount of `entry` in the reporting currency, in hundredths.
pub open spec fn converted_amount(
    entry: WalletEntry,
    reporting: Seq<char>,
    rates: Map<Seq<char>, u64>,
) -> int {
    apply_conversion(
        entry.amount_minor as int,
        conversion_of(entry.currency_code@, reporting, rates),
    )
}

/// The sum of the converted amounts of `entries`, in hundredths.
pub open spec fn wallet_total(
    entries: Seq<WalletEntry>,
    reporting: Seq<char>,
    rates: Map<Seq<char>, u64>,
) -> int
    decreases entries.len(),
{
    if entries.len() == 0 {
        0
    } else {
        wallet_total(entries.drop_last(), reporting, rates) + converted_amount(
            entries.last(),
            reporting,
            rates,
        )
    }
}

/// `x` where it fits an `i128`, and else the bound of `i128` on its side.
pub open spec fn saturated(x: int) -> i128 {
    if x > i128::MAX {
        i128::MAX
    } else if x < i128::MIN {
        i128::MIN
    } else {
        x as i128
    }
}

/// Whether `line` is the display line of `entry`.
pub open spec fn is_line_of(
    line: LedgerLine,
    entry: WalletEntry,
    reporting: Seq<char>,
    rates: Map<Seq<char>, u64>,
) -> bool {
    &&& line.direction == direction_of(entry.amount_minor)
    &&& line.amount == magnitude(entry.amount_minor as int)
    &&& line.currency_code@ == entry.currency_code@
    &&& line.amount_text@ == amount_text(line.amount, entry.currency_code@)
    &&& line.tx_date == entry.tx_date
    &&& line.tx_date_text@ == date_text_of(utc_minute_text(entry.tx_date))
    &&& line.conversion == conversion_of(entry.currency_code@, reporting, rates)
    &&& line.converted == converted_amount(entry, reporting, rates)
}

/// Whether every rate in `rates` is positive, as the rates of a
/// [`RateTable`] are.
pub open spec fn rates_positive(rates: Map<Seq<char>, u64>) -> bool {
    forall|key: Seq<char>| rates.contains_key(key) ==> #[trigger] rates[key] > 0
}

/// The direction of an amount: a debit below zero, a credit otherwise.
pub open spec fn direction_of(amount: i64) -> Direction {
    if amount < 0 {
        Direction::Debit
    } else {
        Direction::Credit
    }
}

/// Classifies an amount as debit or credit.
pub fn direction(amount_minor: i64) -> (d: Direction)
    ensures
        d == direction_of(amount_minor),
{
    if amount_minor < 0 {
        Direction::Debit
    } else {
        Direction::Credit
    }
}

/// The absolute value of an amount, for display beside its direction.
pub fn display_amount(amount_minor: i64) -> (m: u64)
    ensures
        m == magnitude(amount_minor as int),
{
    if amount_minor < 0 {
        (-(amount_minor as i128)) as u64
    } else {
        amount_minor as u64
    }
}

/// Decides how an amount in the currency `code` is brought to the reporting
/// currency: not at all where the codes agree, ASCII case aside; at the
/// table's rate where it has one; and else unconverted.
pub fn conversion_for(code: &str, reporting_currency: &str, rate_table: &RateTable) -> (c:
    Conversion)
    ensures
        c == conversion_of(code@, reporting_currency@, rate_table@),
        c matches Conversion::AtRate(rate) ==> rate > 0,
{
    if eq_ignore_ascii_case(code, reporting_currency) {
        Conversion::SameCurrency
    } else {
        match rate_table.rate_of(code) {
            Some(rate) => Conversion::AtRate(rate),
            None => Conversion::Unconverted,
        }
    }
}

/// Brings an amount to the reporting currency under a conversion whose
/// rate, if it has one, is positive.
fn convert(amount_minor: i64, conversion: Conversion) -> (converted: i128)
    requires
        conversion matches Conversion::AtRate(rate) ==> rate > 0,
    ensures
        converted == apply_conversion(amount_minor as int, conversion),
        magnitude(converted as int) <= MAX_CONVERTED,
{
    let hundredths: i128 = amount_minor as i128 * HUNDREDTHS;
    match conversion {
        Conversion::AtRate(rate) => {
            let scaled: i128 = hundredths * 1_000_000;
            rounded_quotient(scaled, rate as i128)
        },
        _ => hundredths,
    }
}

/// Converts the amount of one entry to the reporting currency. The result
/// is in hundredths and has the sign of the amount. An amount in the
/// reporting currency, or in a currency without a rate, is unchanged; any
/// other is divided by its rate.
pub fn convert_entry(entry: &WalletEntry, reporting_currency: &str, rate_table: &RateTable) -> (converted:
    i128)
    ensures
        converted == converted_amount(*entry, reporting_currency@, rate_table@),
        entry.amount_minor >= 0 ==> converted >= 0,
        entry.amount_minor <= 0 ==> converted <= 0,
        -MAX_CONVERTED <= converted <= MAX_CONVERTED,
{
    let conversion = conversion_for(entry.currency_code.as_str(), reporting_currency, rate_table);
    proof {
        lemma_conversion_keeps_sign(entry.amount_minor as int, conversion);
    }
    convert(entry.amount_minor, conversion)
}

/// Conversion keeps the sign of an amount: a credit stays a credit and a
/// debit a debit, though either may round to zero.
pub proof fn lemma_conversion_keeps_sign(amount: int, conversion: Conversion)
    requires
        conversion matches Conversion::AtRate(rate) ==> rate > 0,
    ensures
        amount >= 0 ==> apply_conversion(amount, conversion) >= 0,
        amount <= 0 ==> apply_conversion(amount, conversion) <= 0,
{
    if let Conversion::AtRate(rate) = conversion {
        let num = amount * 100 * 1_000_000;
        let a = magnitude(num);
        let b = rate as int;
        assert((2 * a + b) / (2 * b) >= 0) by (nonlinear_arith)
            requires
                a >= 0,
                b > 0,
        ;
        if amount == 0 {
            assert((0 + b) / (2 * b) == 0) by (nonlinear_arith)
                requires
                    b > 0,
            ;
        }
    }
}

/// No converted amount is greater in magnitude than [`MAX_CONVERTED`].
pub proof fn lemma_converted_amount_bounded(
    entry: WalletEntry,
    reporting: Seq<char>,
    rates: Map<Seq<char>, u64>,
)
    requires
        rates_positive(rates),
    ensures
        -MAX_CONVERTED <= converted_amount(entry, reporting, rates) <= MAX_CONVERTED,
{
    let amount = entry.amount_minor as int;
    if let Conversion::AtRate(rate) = conversion_of(entry.currency_code@, reporting, rates) {
        lemma_div_round_nearest(amount * 100 * 1_000_000, rate as int);
    }
}

/// The total of a ledger is at most its length times [`MAX_CONVERTED`] in
/// magnitude.
pub proof fn lemma_total_bounded(
    entries: Seq<WalletEntry>,
    reporting: Seq<char>,
    rates: Map<Seq<char>, u64>,
)
    requires
        rates_positive(rates),
    ensures
        -(entries.len() * MAX_CONVERTED) <= wallet_total(entries, reporting, rates)
            <= entries.len() * MAX_CONVERTED,
    decreases entries.len(),
{
    if entries.len() > 0 {
        lemma_total_bounded(entries.drop_last(), reporting, rates);
        lemma_converted_amount_bounded(entries.last(), reporting, rates);
        assert(entries.len() * MAX_CONVERTED == (entries.len() - 1) * MAX_CONVERTED + MAX_CONVERTED)
            by (nonlinear_arith);
    } else {
        assert(entries.len() * MAX_CONVERTED == 0) by (nonlinear_arith)
            requires
                entries.len() == 0,
        ;
    }
}

/// The total of a ledger of at most a hundred thousand million entries
/// fits an `i128`, so that [`normalize`] gives it exactly.
pub proof fn lemma_total_fits(
    entries: Seq<WalletEntry>,
    reporting: Seq<char>,
    rates: Map<Seq<char>, u64>,
)
    requires
        rates_positive(rates),
        entries.len() <= 100_000_000_000,
    ensures
        saturated(wallet_total(entries, reporting, rates)) == wallet_total(
            entries,
            reporting,
            rates,
        ),
{
    lemma_total_bounded(entries, reporting, rates);
    assert(entries.len() * MAX_CONVERTED <= 100_000_000_000 * MAX_CONVERTED) by (nonlinear_arith)
        requires
            entries.len() <= 100_000_000_000,
            MAX_CONVERTED > 0,
    ;
}

/// The total of two ledgers laid end to end is the sum of their totals.
pub proof fn lemma_total_of_concatenation(
    first: Seq<WalletEntry>,
    second: Seq<WalletEntry>,
    reporting: Seq<char>,
    rates: Map<Seq<char>, u64>,
)
    ensures
        wallet_total(first + second, reporting, rates) == wallet_total(first, reporting, rates)
            + wallet_total(second, reporting, rates),
    decreases second.len(),
{
    if second.len() == 0 {
        assert(first + second =~= first);
    } else {
        lemma_total_of_concatenation(first, second.drop_last(), reporting, rates);
        assert((first + second).drop_last() =~= first + second.drop_last());
        assert((first + second).last() == second.last());
    }
}

/// An entry in the reporting currency, ASCII case aside, enters the total as
/// it stands, whatever rate the table holds for that currency.
pub proof fn lemma_reporting_currency_is_unchanged(
    entry: WalletEntry,
    reporting: Seq<char>,
    rates: Map<Seq<char>, u64>,
)
    requires
        eq_ignoring_ascii_case(entry.currency_code@, reporting),
    ensures
        conversion_of(entry.currency_code@, reporting, rates) == Conversion::SameCurrency,
        converted_amount(entry, reporting, rates) == entry.amount_minor * 100,
{
}

/// An entry in a currency that is neither the reporting currency nor in
/// the table enters the total as it stands.
pub proof fn lemma_unknown_currency_passes_through(
    entry: WalletEntry,
    reporting: Seq<char>,
    rates: Map<Seq<char>, u64>,
)
    requires
        !eq_ignoring_ascii_case(entry.currency_code@, reporting),
        !rates.contains_key(fold_ascii(entry.currency_code@)),
    ensures
        conversion_of(entry.currency_code@, reporting, rates) == Conversion::Unconverted,
        converted_amount(entry, reporting, rates) == entry.amount_minor * 100,
{
}

/// Two to the power 64: the weight of the upper part of a running total.
const LIMB: u128 = 0x1_0000_0000_0000_0000;

/// Splits a converted amount into an upper and a lower part:
/// `term == upper * LIMB + lower` with `lower < LIMB`.
fn split_term(term: i128) -> (parts: (i128, u128))
    requires
        magnitude(term as int) <= MAX_CONVERTED,
    ensures
        term == parts.0 * LIMB + parts.1,
        parts.1 < LIMB,
        -0x800_0000 <= parts.0 <= 0x800_0000,
{
    if term >= 0 {
        let u: u128 = term as u128;
        ((u / LIMB) as i128, u % LIMB)
    } else {
        let m: u128 = (-term) as u128;
        let upper: u128 = m / LIMB;
        let lower: u128 = m % LIMB;
        if lower == 0 {
            (-(upper as i128), 0)
        } else {
            (-(upper as i128) - 1, LIMB - lower)
        }
    }
}

/// Totals a ledger in the reporting currency. Each entry is converted as
/// [`convert_entry`] does, and the result is the sum of the converted
/// amounts, in hundredths. An entry in a currency without a rate enters
/// the sum unconverted. The sum is exact wherever it fits an `i128`, and
/// stops at the bound of `i128` where it does not.
pub fn normalize(entries: &Vec<WalletEntry>, reporting_currency: &str, rate_table: &RateTable) -> (total:
    i128)
    ensures
        total == saturated(wallet_total(entries@, reporting_currency@, rate_table@)),
{
    let n: usize = entries.len();
    let mut upper: i128 = 0;
    let mut lower: u128 = 0;
    let mut i: usize = 0;
    while i < n
        invariant
            i <= n,
            n == entries.len(),
            upper * LIMB + lower == wallet_total(
                entries@.take(i as int),
                reporting_currency@,
                rate_table@,
            ),
            -(i * 0x800_0000) <= upper <= i * 0x800_0000,
            lower <= i * (LIMB - 1),
        decreases n - i,
    {
        let term = convert_entry(&entries[i], reporting_currency, rate_table);
        let parts = split_term(term);
        proof {
            assert(entries@.take(i + 1).drop_last() =~= entries@.take(i as int));
            assert((i + 1) * 0x800_0000 == i * 0x800_0000 + 0x800_0000) by (nonlinear_arith);
            assert((i + 1) * (LIMB - 1) == i * (LIMB - 1) + (LIMB - 1)) by (nonlinear_arith);
            assert(i * 0x800_0000 <= 0xffff_ffff_ffff_ffff * 0x800_0000) by (nonlinear_arith)
                requires
                    i <= 0xffff_ffff_ffff_ffff,
            ;
            assert((i + 1) * (LIMB - 1) <= 0xffff_ffff_ffff_ffff * 0xffff_ffff_ffff_ffff)
                by (nonlinear_arith)
                requires
                    i + 1 <= 0xffff_ffff_ffff_ffff,
                    LIMB - 1 == 0xffff_ffff_ffff_ffff,
            ;
            assert((upper + parts.0) * LIMB == upper * LIMB + parts.0 * LIMB) by (nonlinear_arith);
        }
        upper = upper + parts.0;
        lower = lower + parts.1;
        i += 1;
    }
    assert(entries@.take(n as int) =~= entries@);
    let carry: u128 = lower / LIMB;
    let rest: u128 = lower % LIMB;
    let whole: i128 = upper + carry as i128;
    proof {
        assert(i * 0x800_0000 <= 0xffff_ffff_ffff_ffff * 0x800_0000) by (nonlinear_arith)
            requires
                i <= 0xffff_ffff_ffff_ffff,
        ;
        assert(whole * LIMB + rest == upper * LIMB + lower) by (nonlinear_arith)
            requires
                whole == upper + carry,
                lower == carry * LIMB + rest,
        ;
    }
    if whole >= 0x8000_0000_0000_0000 {
        proof {
            assert(whole * LIMB >= 0x8000_0000_0000_0000 * LIMB) by (nonlinear_arith)
                requires
                    whole >= 0x8000_0000_0000_0000,
                    LIMB > 0,
            ;
        }
        i128::MAX
    } else if whole < -0x8000_0000_0000_0000 {
        proof {
            assert(whole * LIMB <= (-0x8000_0000_0000_0000 - 1) * LIMB) by (nonlinear_arith)
                requires
                    whole <= -0x8000_0000_0000_0000 - 1,
                    LIMB > 0,
            ;
        }
        i128::MIN
    } else {
        proof {
            assert(whole * LIMB <= 0x7fff_ffff_ffff_ffff * LIMB) by (nonlinear_arith)
                requires
                    whole <= 0x7fff_ffff_ffff_ffff,
                    LIMB > 0,
            ;
            assert(whole * LIMB >= -0x8000_0000_0000_0000 * LIMB) by (nonlinear_arith)
                requires
                    whole >= -0x8000_0000_0000_0000,
                    LIMB > 0,
            ;
        }
        whole * (LIMB as i128) + rest as i128
    }
}

/// The display line of one entry: a debit where the amount is below zero
/// and a credit otherwise, the absolute amount, and the amount converted
/// to the reporting currency.
pub fn ledger_line(entry: &WalletEntry, reporting_currency: &str, rate_table: &RateTable) -> (line:
    LedgerLine)
    ensures
        is_line_of(line, *entry, reporting_currency@, rate_table@),
{
    let conversion = conversion_for(entry.currency_code.as_str(), reporting_currency, rate_table);
    let amount = display_amount(entry.amount_minor);
    LedgerLine {
        direction: direction(entry.amount_minor),
        amount,
        currency_code: entry.currency_code.clone(),
        amount_text: format_amount(amount, entry.currency_code.as_str()),
        tx_date: entry.tx_date,
        tx_date_text: date_text(entry.tx_date),
        conversion,
        converted: convert(entry.amount_minor, conversion),
    }
}

/// Prepares a ledger for display: a line for each entry, and the total as
/// [`normalize`] gives it. Classifying an entry as debit or credit does not
/// touch the total.
pub fn summarize(entries: &Vec<WalletEntry>, reporting_currency: &str, rate_table: &RateTable) -> (report:
    WalletReport)
    ensures
        report.lines.len() == entries.len(),
        forall|i: int|
            0 <= i < entries.len() ==> is_line_of(
                #[trigger] report.lines[i],
                entries[i],
                reporting_currency@,
                rate_table@,
            ),
        report.total == saturated(wallet_total(entries@, reporting_currency@, rate_table@)),
        report.total_text@ == decimal_text(report.total as int, 2),
{
    let mut lines: Vec<LedgerLine> = Vec::new();
    let mut i: usize = 0;
    while i < entries.len()
        invariant
            i <= entries.len(),
            lines.len() == i,
            forall|j: int|
                0 <= j < i ==> is_line_of(
                    #[trigger] lines[j],
                    entries[j],
                    reporting_currency@,
                    rate_table@,
                ),
        decreases entries.len() - i,
    {
        lines.push(ledger_line(&entries[i], reporting_currency, rate_table));
        i += 1;
    }
    let total = normalize(entries, reporting_currency, rate_table);
    WalletReport { lines, total, total_text: format_decimal(total, 2) }
}

} // verus!
