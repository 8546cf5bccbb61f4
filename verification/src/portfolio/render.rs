//! Table models of the results: the transactions with their effects, the
//! capital gains by year, and the total costs.

use vstd::prelude::*;
use crate::portfolio::bookkeeping::costs::{
    cost_of, costs_complete, costs_view, day_has_all, days_view, sort_ints, strings_view,
    year_entry_pos, yearly_view, Costs, DayCostsView, MaxSingleDayCosts,
};
use crate::portfolio::cumulative_gains::{zero_gain, CumulativeCapitalGains};
use crate::portfolio::summary::year_pos;
use crate::util::text::{chars_lt, int_display, int_to_string, str_lt};
use crate::portfolio::currency::CurrencyAndExchangeRate;
use crate::portfolio::summary::is_sfl_delta;
use crate::portfolio::tx::{action_pretty, TotalAmount, TotalOrAmountPerShare, TxActionSpecifics};
use crate::portfolio::txdelta::TxDelta;
use crate::util::date::date_display;
use crate::util::decimal::{
    decimal_checked_div, decimal_checked_mul, decimal_checked_sub, decimal_display,
    decimal_display_precision, is_difference, same_value, scale_ok, units, Dec,
    GreaterEqualZeroDecimal,
};
use crate::util::math::PosDecimalRatio;
use crate::util::text::{join, join_spec, push_char, split_char, split_spec};

verus! {

/// A table to render: header, rows, footer, and notes and errors below it.
pub struct RenderTable {
    pub header: Vec<String>,
    pub rows: Vec<Vec<String>>,
    pub footer: Vec<String>,
    pub notes: Vec<String>,
    pub errors: Vec<String>,
}

/// The tables of the total costs: by day, and the highest of each year.
pub struct CostsTables {
    pub total: RenderTable,
    pub yearly: RenderTable,
}

/// How amounts are written: with all their decimals or to the cent, and
/// whether a missing value reads "None" (else "-").
pub struct PrintHelper {
    pub print_all_decimals: bool,
    pub display_none: bool,
}

pub open spec fn none_str(ph: PrintHelper) -> Seq<char> {
    if ph.display_none {
        "None"@
    } else {
        "-"@
    }
}

/// A currency value without a sign for the currency.
pub open spec fn curr_str(ph: PrintHelper, v: Dec) -> Seq<char> {
    if ph.print_all_decimals {
        decimal_display(v)
    } else {
        decimal_display_precision(v, 2)
    }
}

pub open spec fn dollar_str(ph: PrintHelper, v: Dec) -> Seq<char> {
    "$"@ + curr_str(ph, v)
}

pub open spec fn opt_dollar_str(ph: PrintHelper, o: Option<Dec>) -> Seq<char> {
    match o {
        Some(v) => dollar_str(ph, v),
        None => none_str(ph),
    }
}

/// A signed dollar value: a minus sign before the dollar sign, and a plus
/// sign where asked.
pub open spec fn plus_minus_dollar(ph: PrintHelper, v: Dec, show_plus: bool) -> Seq<char> {
    if v.mant() < 0 {
        "-$"@ + curr_str(ph, Dec::spec_new(-v.mant(), v.scl()))
    } else {
        (if show_plus {
            "+"@
        } else {
            ""@
        }) + "$"@ + curr_str(ph, v)
    }
}

pub open spec fn plus_minus_opt_dollar(ph: PrintHelper, o: Option<Dec>, show_plus: bool) -> Seq<
    char,
> {
    match o {
        Some(v) => plus_minus_dollar(ph, v, show_plus),
        None => none_str(ph),
    }
}

impl PrintHelper {
    pub fn new(print_all_decimals: bool, display_none: bool) -> (r: PrintHelper)
        ensures
            r == (PrintHelper { print_all_decimals, display_none }),
    {
        PrintHelper { print_all_decimals, display_none }
    }

    pub fn str_for_none(&self) -> (r: &'static str)
        ensures
            r@ == none_str(*self),
    {
        if self.display_none {
            "None"
        } else {
            "-"
        }
    }

    pub fn curr_str(&self, val: Dec) -> (r: String)
        ensures
            r@ == curr_str(*self, val),
    {
        if self.print_all_decimals {
            val.to_string()
        } else {
            val.to_string_with_precision(2)
        }
    }

    pub fn dollar_str(&self, val: Dec) -> (r: String)
        ensures
            r@ == dollar_str(*self, val),
    {
        let mut s = String::from_str("$");
        let c = self.curr_str(val);
        s.append(c.as_str());
        proof {
            reveal_strlit("$");
        }
        s
    }

    pub fn opt_dollar_str(&self, opt_val: Option<Dec>) -> (r: String)
        ensures
            r@ == opt_dollar_str(*self, opt_val),
    {
        match opt_val {
            Some(v) => self.dollar_str(v),
            None => self.str_for_none().to_string(),
        }
    }

    pub fn plus_minus_dollar(&self, val: Dec, show_plus: bool) -> (r: String)
        ensures
            r@ == plus_minus_dollar(*self, val, show_plus),
    {
        if val.is_negative() {
            let mut s = String::from_str("-$");
            let c = self.curr_str(val.neg());
            s.append(c.as_str());
            s
        } else {
            let mut s = if show_plus {
                String::from_str("+")
            } else {
                String::new()
            };
            s.append("$");
            let c = self.curr_str(val);
            s.append(c.as_str());
            proof {
                reveal_strlit("+");
                reveal_strlit("");
                reveal_strlit("$");
            }
            s
        }
    }

    pub fn plus_minus_opt_dollar(&self, opt_val: Option<Dec>, show_plus: bool) -> (r: String)
        ensures
            r@ == plus_minus_opt_dollar(*self, opt_val, show_plus),
    {
        match opt_val {
            Some(v) => self.plus_minus_dollar(v, show_plus),
            None => self.str_for_none().to_string(),
        }
    }
}

/// The UTF-8 length of a character.
pub open spec fn char_utf8_len(c: char) -> nat {
    if (c as u32) < 0x80 {
        1
    } else if (c as u32) < 0x800 {
        2
    } else if (c as u32) < 0x10000 {
        3
    } else {
        4
    }
}

/// The length of a text in bytes (UTF-8), as `str::len` gives it.
pub open spec fn utf8_len(s: Seq<char>) -> nat
    decreases s.len(),
{
    if s.len() == 0 {
        0
    } else {
        utf8_len(s.drop_last()) + char_utf8_len(s.last())
    }
}

/// Words put on lines greedily: the lines done and the line being filled.
/// A word goes on the current line (after a space) unless that makes it
/// longer than `max`; a word longer than `max` stands on its own line.
pub open spec fn wrap_words(words: Seq<Seq<char>>, max: nat) -> (Seq<Seq<char>>, Seq<char>)
    decreases words.len(),
{
    if words.len() == 0 {
        (Seq::empty(), Seq::empty())
    } else {
        let (done, cur) = wrap_words(words.drop_last(), max);
        let w = words.last();
        if cur.len() == 0 {
            (done, w)
        } else if utf8_len(cur) + 1 + utf8_len(w) > max {
            (done.push(cur), w)
        } else {
            (done, cur + " "@ + w)
        }
    }
}

/// A line as wrapped: kept where it fits, else split at spaces.
pub open spec fn wrap_line(line: Seq<char>, max: nat) -> Seq<Seq<char>> {
    if utf8_len(line) > max {
        let (done, cur) = wrap_words(split_spec(line, ' '), max);
        if cur.len() > 0 {
            done.push(cur)
        } else {
            done
        }
    } else {
        seq![line]
    }
}

pub open spec fn wrap_lines(lines: Seq<Seq<char>>, max: nat) -> Seq<Seq<char>>
    decreases lines.len(),
{
    if lines.len() == 0 {
        Seq::empty()
    } else {
        wrap_lines(lines.drop_last(), max) + wrap_line(lines.last(), max)
    }
}

/// `s` fitted to lines of `max` bytes where its words allow: each line of it
/// (newlines are kept) that is too long is split at spaces.
pub open spec fn wrap_spec(s: Seq<char>, max: nat) -> Seq<char> {
    join_spec(wrap_lines(split_spec(s, '\n'), max), "\n"@)
}

/// A line of wrapped text: no newline in it, and it fits the width unless it
/// is a single word (holds no space).
pub open spec fn wrapped_line_ok(line: Seq<char>, max: nat) -> bool {
    &&& !line.contains('\n')
    &&& (utf8_len(line) <= max || !line.contains(' '))
}

proof fn lemma_utf8_len_concat(a: Seq<char>, b: Seq<char>)
    ensures
        utf8_len(a + b) == utf8_len(a) + utf8_len(b),
    decreases b.len(),
{
    if b.len() > 0 {
        lemma_utf8_len_concat(a, b.drop_last());
        assert((a + b).drop_last() =~= a + b.drop_last());
        assert((a + b).last() == b.last());
    }
}

proof fn lemma_wrap_words_ok(words: Seq<Seq<char>>, max: nat)
    requires
        forall|k: int|
            0 <= k < words.len() ==> !(#[trigger] words[k]).contains(' ') && !words[k].contains(
                '\n',
            ),
    ensures
        forall|k: int|
            0 <= k < wrap_words(words, max).0.len() ==> wrapped_line_ok(
                #[trigger] wrap_words(words, max).0[k],
                max,
            ),
        wrapped_line_ok(wrap_words(words, max).1, max),
    decreases words.len(),
{
    if words.len() > 0 {
        let prev = words.drop_last();
        assert forall|k: int| 0 <= k < prev.len() implies !(#[trigger] prev[k]).contains(' ')
            && !prev[k].contains('\n') by {
            assert(prev[k] == words[k]);
        }
        lemma_wrap_words_ok(prev, max);
        let (done, cur) = wrap_words(prev, max);
        let w = words.last();
        assert(!w.contains(' ') && !w.contains('\n'));
        if cur.len() != 0 && utf8_len(cur) + 1 + utf8_len(w) <= max {
            let joined = cur + " "@ + w;
            lemma_utf8_len_concat(cur, " "@);
            lemma_utf8_len_concat(cur + " "@, w);
            reveal_strlit(" ");
            assert(" "@ =~= seq![' ']);
            assert(utf8_len(seq![' ']) == 1) by {
                assert(seq![' '].drop_last() =~= Seq::<char>::empty());
                assert(utf8_len(Seq::<char>::empty()) == 0);
                assert((' ' as u32) == 32);
                assert(char_utf8_len(' ') == 1);
            }
            assert(!joined.contains('\n')) by {
                if joined.contains('\n') {
                    let q = choose|q: int| 0 <= q < joined.len() && joined[q] == '\n';
                    if q < cur.len() {
                        assert(cur[q] == '\n');
                    } else if q == cur.len() {
                        assert(joined[q] == ' ');
                    } else {
                        assert(w[q - cur.len() - 1] == '\n');
                    }
                }
            }
        }
    }
}

proof fn lemma_wrap_line_ok(line: Seq<char>, max: nat)
    requires
        !line.contains('\n'),
    ensures
        forall|k: int|
            0 <= k < wrap_line(line, max).len() ==> wrapped_line_ok(
                #[trigger] wrap_line(line, max)[k],
                max,
            ),
{
    if utf8_len(line) > max {
        let words = split_spec(line, ' ');
        crate::util::text::lemma_split_pieces(line, ' ');
        assert forall|k: int| 0 <= k < words.len() implies !(#[trigger] words[k]).contains(' ')
            && !words[k].contains('\n') by {
            if words[k].contains(' ') {
                let j = choose|j: int| 0 <= j < words[k].len() && words[k][j] == ' ';
                assert(split_spec(line, ' ')[k][j] != ' ');
            }
            if words[k].contains('\n') {
                let j = choose|j: int| 0 <= j < words[k].len() && words[k][j] == '\n';
                assert(line.contains(split_spec(line, ' ')[k][j]));
            }
        }
        lemma_wrap_words_ok(words, max);
    }
}

proof fn lemma_wrap_lines_ok(lines: Seq<Seq<char>>, max: nat)
    requires
        forall|k: int| 0 <= k < lines.len() ==> !(#[trigger] lines[k]).contains('\n'),
    ensures
        forall|k: int|
            0 <= k < wrap_lines(lines, max).len() ==> wrapped_line_ok(
                #[trigger] wrap_lines(lines, max)[k],
                max,
            ),
    decreases lines.len(),
{
    if lines.len() > 0 {
        let prev = lines.drop_last();
        assert forall|k: int| 0 <= k < prev.len() implies !(#[trigger] prev[k]).contains('\n') by {
            assert(prev[k] == lines[k]);
        }
        lemma_wrap_lines_ok(prev, max);
        lemma_wrap_line_ok(lines.last(), max);
        let a = wrap_lines(prev, max);
        let b = wrap_line(lines.last(), max);
        assert forall|k: int| 0 <= k < (a + b).len() implies wrapped_line_ok(
            #[trigger] (a + b)[k],
            max,
        ) by {
            if k < a.len() {
                assert((a + b)[k] == a[k]);
            } else {
                assert((a + b)[k] == b[k - a.len()]);
            }
        }
    }
}

/// Wrapping keeps to the width where words allow: the lines that
/// `wrap_str_to_width` joins with newlines hold no newline themselves, and
/// each fits in `max` bytes unless it is a single word longer than that.
pub proof fn law_wrapped_lines_fit(s: Seq<char>, max: nat)
    ensures
        wrap_spec(s, max) == join_spec(wrap_lines(split_spec(s, '\n'), max), "\n"@),
        forall|k: int|
            0 <= k < wrap_lines(split_spec(s, '\n'), max).len() ==> wrapped_line_ok(
                #[trigger] wrap_lines(split_spec(s, '\n'), max)[k],
                max,
            ),
{
    let lines = split_spec(s, '\n');
    crate::util::text::lemma_split_pieces(s, '\n');
    assert forall|k: int| 0 <= k < lines.len() implies !(#[trigger] lines[k]).contains('\n') by {
        if lines[k].contains('\n') {
            let j = choose|j: int| 0 <= j < lines[k].len() && lines[k][j] == '\n';
            assert(split_spec(s, '\n')[k][j] != '\n');
        }
    }
    lemma_wrap_lines_ok(lines, max);
}

/// The length of `s` in bytes.
fn utf8_len_exec(s: &str) -> (r: u128)
    ensures
        r == utf8_len(s@),
        r <= 4 * (usize::MAX as u128),
{
    let n = s.unicode_len();
    let mut total: u128 = 0;
    let mut i: usize = 0;
    while i < n
        invariant
            i <= n,
            n == s@.len(),
            total == utf8_len(s@.subrange(0, i as int)),
            total <= 4 * i,
        decreases n - i,
    {
        let c = s.get_char(i);
        let x = c as u32;
        let w: u128 = if x < 0x80 {
            1
        } else if x < 0x800 {
            2
        } else if x < 0x10000 {
            3
        } else {
            4
        };
        proof {
            assert(s@.subrange(0, i + 1).drop_last() =~= s@.subrange(0, i as int));
            assert(s@.subrange(0, i + 1).last() == c);
        }
        total = total + w;
        i += 1;
    }
    proof {
        assert(s@.subrange(0, n as int) =~= s@);
    }
    total
}

fn wrap_line_exec(line: &str, max_width: usize, out: &mut Vec<String>)
    ensures
        final(out)@.map_values(|l: String| l@) == old(out)@.map_values(|l: String| l@) + wrap_line(
            line@,
            max_width as nat,
        ),
{
    let ghost o0 = out@.map_values(|l: String| l@);
    if utf8_len_exec(line) > max_width as u128 {
        let words = split_char(line, ' ');
        let ghost wv = words@.map_values(|w: String| w@);
        let mut new_line = String::new();
        let mut k: usize = 0;
        proof {
            assert(wv.subrange(0, 0) =~= Seq::<Seq<char>>::empty());
            assert(out@.map_values(|l: String| l@) =~= o0 + Seq::<Seq<char>>::empty());
        }
        while k < words.len()
            invariant
                k <= words@.len(),
                wv == words@.map_values(|w: String| w@),
                out@.map_values(|l: String| l@) == o0 + wrap_words(wv.subrange(0, k as int), max_width as nat).0,
                new_line@ == wrap_words(wv.subrange(0, k as int), max_width as nat).1,
            decreases words@.len() - k,
        {
            let word = &words[k];
            proof {
                assert(wv.subrange(0, k + 1).drop_last() =~= wv.subrange(0, k as int));
                assert(wv.subrange(0, k + 1).last() == word@);
            }
            let ghost ob = out@;
            if new_line.as_str().is_empty() {
                new_line = word.clone();
            } else if utf8_len_exec(new_line.as_str()) + 1 + utf8_len_exec(word.as_str())
                > max_width as u128 {
                let done = new_line;
                out.push(done);
                proof {
                    assert(out@.map_values(|l: String| l@) =~= ob.map_values(|l: String| l@).push(done@));
                }
                new_line = word.clone();
            } else {
                push_char(&mut new_line, ' ');
                new_line.append(word.as_str());
                proof {
                    reveal_strlit(" ");
                    assert(new_line@ =~= wrap_words(wv.subrange(0, k as int), max_width as nat).1 + " "@ + word@);
                }
            }
            k += 1;
        }
        proof {
            assert(wv.subrange(0, words@.len() as int) =~= wv);
            assert(split_spec(line@, ' ') == wv);
        }
        if !new_line.as_str().is_empty() {
            let ghost ob = out@;
            out.push(new_line);
            proof {
                assert(out@.map_values(|l: String| l@) =~= ob.map_values(|l: String| l@).push(wrap_words(wv, max_width as nat).1));
            }
        }
    } else {
        let ghost ob = out@;
        out.push(line.to_string());
        proof {
            assert(out@.map_values(|l: String| l@) =~= ob.map_values(|l: String| l@) + seq![line@]);
        }
    }
}

/// Splits `s` so that it fits a column `max_width` bytes wide: newlines are
/// kept, and a line too long is broken between words (a word longer than the
/// width stands on a line of its own).
pub fn wrap_str_to_width(s: &str, max_width: usize) -> (r: String)
    ensures
        r@ == wrap_spec(s@, max_width as nat),
{
    let lines = split_char(s, '\n');
    let ghost lv = lines@.map_values(|l: String| l@);
    let mut new_lines: Vec<String> = Vec::new();
    let mut i: usize = 0;
    proof {
        assert(new_lines@.map_values(|l: String| l@) =~= Seq::<Seq<char>>::empty());
    }
    while i < lines.len()
        invariant
            i <= lines@.len(),
            lv == lines@.map_values(|l: String| l@),
            new_lines@.map_values(|l: String| l@) == wrap_lines(lv.subrange(0, i as int), max_width as nat),
        decreases lines@.len() - i,
    {
        proof {
            assert(lv.subrange(0, i + 1).drop_last() =~= lv.subrange(0, i as int));
            assert(lv.subrange(0, i + 1).last() == lines@[i as int]@);
        }
        wrap_line_exec(lines[i].as_str(), max_width, &mut new_lines);
        i += 1;
    }
    proof {
        assert(lv.subrange(0, lines@.len() as int) =~= lv);
    }
    join(&new_lines, "\n")
}

/// The error where an amount shown overflows.
pub const RENDER_OVERFLOW_ERROR: &'static str = "An amount to show overflowed";

/// A value in its currency: dollars for CAD, else the amount in CAD (at the
/// rate) and below it the amount in the currency. `None` where the
/// conversion overflows.
pub open spec fn fx_str(ph: PrintHelper, v: Dec, fx: CurrencyAndExchangeRate) -> Option<Seq<char>> {
    if fx.currency@ == "CAD"@ {
        Some(dollar_str(ph, v))
    } else {
        match decimal_checked_mul(v, fx.exchange_rate@) {
            Some(l) => Some(
                dollar_str(ph, l) + "\n("@ + curr_str(ph, v) + " "@ + fx.currency@ + ")"@,
            ),
            None => None,
        }
    }
}

pub open spec fn ratio_display(r: PosDecimalRatio) -> Seq<char> {
    decimal_display(r.numerator@) + seq!['/'] + decimal_display(r.denominator@)
}

/// The note on a sale's superficial loss: its amount (`!` where forced),
/// the ratio applied, and `[1]` where it may be over-applied.
pub open spec fn sfl_note(ph: PrintHelper, d: TxDelta) -> Seq<char> {
    let sfl = d.sfl->0;
    let forced = match d.tx.action_specifics {
        TxActionSpecifics::Sell(s) => match s.specified_superficial_loss {
            Some(i) => i.force,
            None => false,
        },
        _ => false,
    };
    " *\n(SfL "@ + plus_minus_dollar(ph, sfl.superficial_loss, false) + (if forced {
        "!"@
    } else {
        ""@
    }) + "; "@ + ratio_display(sfl.ratio) + (if sfl.potentially_over_applied {
        "[1]"@
    } else {
        ""@
    })
}

/// The cells of a row that depend on the action: amount, shares, amount a
/// share, ACB of the shares sold, commission, capital gain, share balance.
pub struct RowCells {
    pub amount: Seq<char>,
    pub shares: Dec,
    pub aps: Seq<char>,
    pub acb_of_sale: Option<Seq<char>>,
    pub commission: Option<Seq<char>>,
    pub cap_gain: Option<Seq<char>>,
    pub share_balance: Seq<char>,
}

pub open spec fn zero_dec() -> Dec {
    Dec::spec_new(0, 0)
}

/// The ACB of the shares sold: the ACB a share before the sale times the
/// shares (`Some(None)`: not shown; `None`: overflow).
pub open spec fn acb_of_sale(ph: PrintHelper, d: TxDelta, shares: Dec) -> Option<Option<Seq<char>>> {
    if d.pre_status.share_balance@.mant() > 0 {
        match d.pre_status.total_acb {
            Some(p) => match decimal_checked_div(p@, d.pre_status.share_balance@) {
                Some(aps) => match decimal_checked_mul(aps, shares) {
                    Some(v) => Some(Some(dollar_str(ph, v))),
                    None => None,
                },
                None => None,
            },
            None => Some(None),
        }
    } else {
        Some(None)
    }
}

pub open spec fn share_balance_str(d: TxDelta) -> Seq<char> {
    if same_value(d.post_status.share_balance@, d.post_status.all_affiliate_share_balance@) {
        decimal_display(d.post_status.share_balance@)
    } else {
        decimal_display(d.post_status.share_balance@) + " / "@ + decimal_display(
            d.post_status.all_affiliate_share_balance@,
        )
    }
}

pub open spec fn row_cells(ph: PrintHelper, d: TxDelta) -> Option<RowCells> {
    match d.tx.action_specifics {
        TxActionSpecifics::Buy(b) => {
            match (
                decimal_checked_mul(b.shares@, b.amount_per_share@),
                fx_str(ph, b.amount_per_share@, b.tx_currency_and_rate),
            ) {
                (Some(total), Some(aps)) => match fx_str(ph, total, b.tx_currency_and_rate) {
                    Some(amount) => {
                        let comm_rate = match b.separate_commission_currency {
                            Some(c) => c,
                            None => b.tx_currency_and_rate,
                        };
                        if b.commission@.mant() == 0 {
                            Some(RowCells {
                                amount,
                                shares: b.shares@,
                                aps,
                                acb_of_sale: None,
                                commission: None,
                                cap_gain: None,
                                share_balance: share_balance_str(d),
                            })
                        } else {
                            match fx_str(ph, b.commission@, comm_rate) {
                                Some(c) => Some(RowCells {
                                    amount,
                                    shares: b.shares@,
                                    aps,
                                    acb_of_sale: None,
                                    commission: Some(c),
                                    cap_gain: None,
                                    share_balance: share_balance_str(d),
                                }),
                                None => None,
                            }
                        }
                    },
                    None => None,
                },
                _ => None,
            }
        },
        TxActionSpecifics::Sell(b) => {
            match (
                decimal_checked_mul(b.shares@, b.amount_per_share@),
                fx_str(ph, b.amount_per_share@, b.tx_currency_and_rate),
                acb_of_sale(ph, d, b.shares@),
            ) {
                (Some(total), Some(aps), Some(sale_acb)) => match fx_str(
                    ph,
                    total,
                    b.tx_currency_and_rate,
                ) {
                    Some(amount) => {
                        let comm_rate = match b.separate_commission_currency {
                            Some(c) => c,
                            None => b.tx_currency_and_rate,
                        };
                        let cap_gain = match d.capital_gain {
                            Some(g) => Some(
                                plus_minus_dollar(ph, g, false) + if is_sfl_delta(d) {
                                    sfl_note(ph, d)
                                } else {
                                    ""@
                                },
                            ),
                            None => None,
                        };
                        if b.commission@.mant() == 0 {
                            Some(RowCells {
                                amount,
                                shares: b.shares@,
                                aps,
                                acb_of_sale: sale_acb,
                                commission: None,
                                cap_gain,
                                share_balance: share_balance_str(d),
                            })
                        } else {
                            match fx_str(ph, b.commission@, comm_rate) {
                                Some(c) => Some(RowCells {
                                    amount,
                                    shares: b.shares@,
                                    aps,
                                    acb_of_sale: sale_acb,
                                    commission: Some(c),
                                    cap_gain,
                                    share_balance: share_balance_str(d),
                                }),
                                None => None,
                            }
                        }
                    },
                    None => None,
                },
                _ => None,
            }
        },
        TxActionSpecifics::Roc(r) => {
            let shares = d.pre_status.share_balance@;
            match r.amount {
                TotalOrAmountPerShare::AmountPerShare(a) => match (
                    decimal_checked_mul(shares, a@),
                    fx_str(ph, a@, r.tx_currency_and_rate),
                ) {
                    (Some(total), Some(aps)) => match fx_str(ph, total, r.tx_currency_and_rate) {
                        Some(amount) => Some(RowCells {
                            amount,
                            shares,
                            aps,
                            acb_of_sale: None,
                            commission: None,
                            cap_gain: None,
                            share_balance: ""@,
                        }),
                        None => None,
                    },
                    _ => None,
                },
                TotalOrAmountPerShare::Total(t) => match fx_str(ph, t@, r.tx_currency_and_rate) {
                    Some(amount) => Some(RowCells {
                        amount,
                        shares,
                        aps: ""@,
                        acb_of_sale: None,
                        commission: None,
                        cap_gain: None,
                        share_balance: ""@,
                    }),
                    None => None,
                },
            }
        },
        TxActionSpecifics::Sfla(s) => match s.amount() {
            TotalAmount::TotalByShare(sa) => match decimal_checked_mul(
                sa.shares@,
                sa.amount_per_share@,
            ) {
                Some(total) => Some(RowCells {
                    amount: dollar_str(ph, total),
                    shares: sa.shares@,
                    aps: dollar_str(ph, sa.amount_per_share@),
                    acb_of_sale: None,
                    commission: None,
                    cap_gain: None,
                    share_balance: ""@,
                }),
                None => None,
            },
            TotalAmount::ExplicitTotal(t) => Some(RowCells {
                amount: dollar_str(ph, t@),
                shares: zero_dec(),
                aps: ""@,
                acb_of_sale: None,
                commission: None,
                cap_gain: None,
                share_balance: ""@,
            }),
        },
        TxActionSpecifics::Split(_) => Some(RowCells {
            amount: ""@,
            shares: zero_dec(),
            aps: ""@,
            acb_of_sale: None,
            commission: None,
            cap_gain: None,
            share_balance: ""@,
        }),
    }
}

/// The ACB a share after the delta (`Some(None)`: not shown; `None`:
/// overflow).
pub open spec fn acb_per_share_cell(ph: PrintHelper, d: TxDelta) -> Option<Option<Seq<char>>> {
    if d.post_status.share_balance@.mant() > 0 {
        match d.post_status.total_acb {
            Some(p) => match decimal_checked_div(p@, d.post_status.share_balance@) {
                Some(v) => Some(Some(dollar_str(ph, v))),
                None => None,
            },
            None => Some(None),
        }
    } else {
        Some(None)
    }
}

/// The change of the total ACB (`Some(None)`: unknown; `None`: overflow).
pub open spec fn acb_delta_cell(d: TxDelta) -> Option<Option<Dec>> {
    match (d.pre_status.total_acb, d.post_status.total_acb) {
        (Some(pre), Some(post)) => match decimal_checked_sub(post@, pre@) {
            Some(x) => Some(Some(x)),
            None => None,
        },
        _ => Some(None),
    }
}

pub open spec fn or_dash(o: Option<Seq<char>>) -> Seq<char> {
    match o {
        Some(s) => s,
        None => "-"@,
    }
}

/// The row of a delta; `None` where an amount overflows.
pub open spec fn tx_row(ph: PrintHelper, d: TxDelta) -> Option<Seq<Seq<char>>> {
    match (row_cells(ph, d), acb_per_share_cell(ph, d), acb_delta_cell(d)) {
        (Some(c), Some(aps_after), Some(delta)) => Some(
            seq![
                d.tx.security@,
                date_display(d.tx.trade_date.day_number()),
                date_display(d.tx.settlement_date.day_number()),
                action_pretty(d.tx.spec_action()),
                c.amount,
                decimal_display(c.shares),
                c.aps,
                or_dash(c.acb_of_sale),
                or_dash(c.commission),
                or_dash(c.cap_gain),
                c.share_balance,
                plus_minus_opt_dollar(ph, delta, true),
                opt_dollar_str(
                    ph,
                    match d.post_status.total_acb {
                        Some(a) => Some(a@),
                        None => None,
                    },
                ),
                or_dash(aps_after),
                d.tx.affiliate@.name,
                wrap_spec(d.tx.memo@, 32),
            ],
        ),
        _ => None,
    }
}

impl PrintHelper {
    /// A value in its currency (see `fx_str`); `None` where the conversion
    /// overflows.
    pub fn curr_with_fx_str(&self, val: Dec, fx: &CurrencyAndExchangeRate) -> (r: Option<String>)
        ensures
            match fx_str(*self, val, *fx) {
                Some(s) => r is Some && r->0@ == s,
                None => r is None,
            },
    {
        fx_str_exec(self, val, fx)
    }
}

fn fx_str_exec(ph: &PrintHelper, v: Dec, fx: &CurrencyAndExchangeRate) -> (r: Option<String>)
    ensures
        match fx_str(*ph, v, *fx) {
            Some(s) => r is Some && r->0@ == s,
            None => r is None,
        },
{
    if fx.is_default() {
        Some(ph.dollar_str(v))
    } else {
        match v.checked_mul(&fx.exchange_rate.get()) {
            Some(local) => {
                let mut s = ph.dollar_str(local);
                s.append("\n(");
                let c = ph.curr_str(v);
                s.append(c.as_str());
                s.append(" ");
                s.append(fx.currency.as_str());
                s.append(")");
                Some(s)
            },
            None => None,
        }
    }
}

fn sfl_note_exec(ph: &PrintHelper, d: &TxDelta) -> (r: String)
    requires
        d.sfl is Some,
    ensures
        r@ == sfl_note(*ph, *d),
{
    let sfl = match &d.sfl {
        Some(s) => s,
        None => {
            proof {
                assert(false);
            }
            return String::new();
        },
    };
    let forced = match &d.tx.action_specifics {
        TxActionSpecifics::Sell(s) => match &s.specified_superficial_loss {
            Some(i) => i.force,
            None => false,
        },
        _ => false,
    };
    let mut out = String::from_str(" *\n(SfL ");
    let pm = ph.plus_minus_dollar(sfl.superficial_loss, false);
    out.append(pm.as_str());
    if forced {
        out.append("!");
    }
    out.append("; ");
    let ratio = sfl.ratio.to_string();
    out.append(ratio.as_str());
    if sfl.potentially_over_applied {
        out.append("[1]");
    }
    proof {
        reveal_strlit("");
        reveal_strlit("!");
        reveal_strlit("[1]");
    }
    out
}

fn acb_of_sale_exec(ph: &PrintHelper, d: &TxDelta, shares: Dec) -> (r: Option<Option<String>>)
    ensures
        match acb_of_sale(*ph, *d, shares) {
            Some(Some(s)) => r is Some && r->0 is Some && r->0->0@ == s,
            Some(None) => r == Some(None::<String>),
            None => r is None,
        },
{
    if d.pre_status.share_balance.get().is_positive() {
        match d.pre_status.total_acb {
            Some(p) => match p.get().checked_div(&d.pre_status.share_balance.get()) {
                Some(aps) => match aps.checked_mul(&shares) {
                    Some(v) => Some(Some(ph.dollar_str(v))),
                    None => None,
                },
                None => None,
            },
            None => Some(None),
        }
    } else {
        Some(None)
    }
}

fn share_balance_exec(d: &TxDelta) -> (r: String)
    ensures
        r@ == share_balance_str(*d),
{
    let sb = d.post_status.share_balance.get();
    let all = d.post_status.all_affiliate_share_balance.get();
    if sb.value_eq(&all) {
        sb.to_string()
    } else {
        let mut s = sb.to_string();
        s.append(" / ");
        let a = all.to_string();
        s.append(a.as_str());
        s
    }
}

fn opt_view(o: &Option<String>) -> (r: Option<String>)
    ensures
        match *o {
            Some(s) => r is Some && r->0@ == s@,
            None => r is None,
        },
{
    match o {
        Some(s) => Some(s.clone()),
        None => None,
    }
}

pub open spec fn opt_str_view(o: Option<String>) -> Option<Seq<char>> {
    match o {
        Some(s) => Some(s@),
        None => None,
    }
}

/// The action-dependent cells of the row of `d` (see `row_cells`).
fn row_cells_exec(ph: &PrintHelper, d: &TxDelta) -> (r: Option<
    (String, Dec, String, Option<String>, Option<String>, Option<String>, String),
>)
    ensures
        match row_cells(*ph, *d) {
            Some(c) => r is Some && ({
                let x = r->0;
                &&& x.0@ == c.amount
                &&& x.1 == c.shares
                &&& x.2@ == c.aps
                &&& opt_str_view(x.3) == c.acb_of_sale
                &&& opt_str_view(x.4) == c.commission
                &&& opt_str_view(x.5) == c.cap_gain
                &&& x.6@ == c.share_balance
            }),
            None => r is None,
        },
{
    proof {
        reveal_strlit("");
    }
    match &d.tx.action_specifics {
        TxActionSpecifics::Buy(b) => {
            let total = match b.shares.get().checked_mul(&b.amount_per_share.get()) {
                Some(t) => t,
                None => {
                    return None;
                },
            };
            let aps = match fx_str_exec(ph, b.amount_per_share.get(), &b.tx_currency_and_rate) {
                Some(x) => x,
                None => {
                    return None;
                },
            };
            let amount = match fx_str_exec(ph, total, &b.tx_currency_and_rate) {
                Some(x) => x,
                None => {
                    return None;
                },
            };
            let commission = if b.commission.get().is_zero() {
                None
            } else {
                match fx_str_exec(ph, b.commission.get(), b.commission_currency_and_rate()) {
                    Some(c) => Some(c),
                    None => {
                        return None;
                    },
                }
            };
            Some((amount, b.shares.get(), aps, None, commission, None, share_balance_exec(d)))
        },
        TxActionSpecifics::Sell(b) => {
            let total = match b.shares.get().checked_mul(&b.amount_per_share.get()) {
                Some(t) => t,
                None => {
                    return None;
                },
            };
            let aps = match fx_str_exec(ph, b.amount_per_share.get(), &b.tx_currency_and_rate) {
                Some(x) => x,
                None => {
                    return None;
                },
            };
            let sale_acb = match acb_of_sale_exec(ph, d, b.shares.get()) {
                Some(x) => x,
                None => {
                    return None;
                },
            };
            let amount = match fx_str_exec(ph, total, &b.tx_currency_and_rate) {
                Some(x) => x,
                None => {
                    return None;
                },
            };
            let cap_gain = match d.capital_gain {
                Some(g) => {
                    let mut s = ph.plus_minus_dollar(g, false);
                    if d.is_superficial_loss() {
                        let note = sfl_note_exec(ph, d);
                        s.append(note.as_str());
                    }
                    Some(s)
                },
                None => None,
            };
            let commission = if b.commission.get().is_zero() {
                None
            } else {
                match fx_str_exec(ph, b.commission.get(), b.commission_currency_and_rate()) {
                    Some(c) => Some(c),
                    None => {
                        return None;
                    },
                }
            };
            Some((amount, b.shares.get(), aps, sale_acb, commission, cap_gain, share_balance_exec(d)))
        },
        TxActionSpecifics::Roc(r) => {
            let shares = d.pre_status.share_balance.get();
            match &r.amount {
                TotalOrAmountPerShare::AmountPerShare(a) => {
                    let total = match shares.checked_mul(&a.get()) {
                        Some(t) => t,
                        None => {
                            return None;
                        },
                    };
                    let aps = match fx_str_exec(ph, a.get(), &r.tx_currency_and_rate) {
                        Some(x) => x,
                        None => {
                            return None;
                        },
                    };
                    let amount = match fx_str_exec(ph, total, &r.tx_currency_and_rate) {
                        Some(x) => x,
                        None => {
                            return None;
                        },
                    };
                    Some((amount, shares, aps, None, None, None, String::new()))
                },
                TotalOrAmountPerShare::Total(t) => {
                    let amount = match fx_str_exec(ph, t.get(), &r.tx_currency_and_rate) {
                        Some(x) => x,
                        None => {
                            return None;
                        },
                    };
                    Some((amount, shares, String::new(), None, None, None, String::new()))
                },
            }
        },
        TxActionSpecifics::Sfla(s) => match (s.shares_affected(), s.amount_per_share()) {
            (Some(sh), Some(aps)) => match sh.get().checked_mul(&aps.get()) {
                Some(total) => Some(
                    (
                        ph.dollar_str(total),
                        sh.get(),
                        ph.dollar_str(aps.get()),
                        None,
                        None,
                        None,
                        String::new(),
                    ),
                ),
                None => None,
            },
            _ => {
                let t = match s.explicit_total_amount() {
                    Some(t) => t,
                    None => {
                        proof {
                            assert(false);
                        }
                        return None;
                    },
                };
                Some((ph.dollar_str(t.get()), Dec::zero(), String::new(), None, None, None, String::new()))
            },
        },
        TxActionSpecifics::Split(_) => Some(
            (String::new(), Dec::zero(), String::new(), None, None, None, String::new()),
        ),
    }
}

fn or_dash_exec(o: Option<String>) -> (r: String)
    ensures
        r@ == or_dash(opt_str_view(o)),
{
    match o {
        Some(s) => s,
        None => "-".to_string(),
    }
}

/// The row of a delta (see `tx_row`); `None` where an amount overflows.
pub fn tx_row_exec(ph: &PrintHelper, d: &TxDelta) -> (r: Option<Vec<String>>)
    ensures
        match tx_row(*ph, *d) {
            Some(row) => r is Some && r->0@.map_values(|c: String| c@) == row,
            None => r is None,
        },
{
    let cells = match row_cells_exec(ph, d) {
        Some(c) => c,
        None => {
            return None;
        },
    };
    let aps_after: Option<String> = if d.post_status.share_balance.get().is_positive() {
        match d.post_status.total_acb {
            Some(p) => match p.get().checked_div(&d.post_status.share_balance.get()) {
                Some(v) => Some(ph.dollar_str(v)),
                None => {
                    return None;
                },
            },
            None => None,
        }
    } else {
        None
    };
    let delta: Option<Dec> = match (d.pre_status.total_acb, d.post_status.total_acb) {
        (Some(pre), Some(post)) => match post.get().checked_sub(&pre.get()) {
            Some(x) => Some(x),
            None => {
                return None;
            },
        },
        _ => None,
    };
    let (amount, shares, aps, sale_acb, commission, cap_gain, sb) = cells;
    let post_total: Option<Dec> = match d.post_status.total_acb {
        Some(a) => Some(a.get()),
        None => None,
    };
    let row = vec![
        d.tx.security.clone(),
        d.tx.trade_date.to_string(),
        d.tx.settlement_date.to_string(),
        d.tx.action().pretty_str().to_string(),
        amount,
        shares.to_string(),
        aps,
        or_dash_exec(sale_acb),
        or_dash_exec(commission),
        or_dash_exec(cap_gain),
        sb,
        ph.plus_minus_opt_dollar(delta, true),
        ph.opt_dollar_str(post_total),
        or_dash_exec(aps_after),
        d.tx.affiliate.name().to_string(),
        wrap_str_to_width(d.tx.memo.as_str(), 32),
    ];
    proof {
        let rv = row@.map_values(|c: String| c@);
        let spec_row = tx_row(*ph, *d)->0;
        assert(rv.len() == spec_row.len());
        assert(rv =~= spec_row);
    }
    Some(row)
}

pub open spec fn tx_table_header() -> Seq<Seq<char>> {
    seq![
        "Security"@,
        "Trade Date"@,
        "Settl. Date"@,
        "TX"@,
        "Amount"@,
        "Shares"@,
        "Amt/Share"@,
        "ACB"@,
        "Commission"@,
        "Cap. Gain"@,
        "Share Balance"@,
        "ACB +/-"@,
        "New ACB"@,
        "New ACB/Share"@,
        "Affiliate"@,
        "Memo"@,
    ]
}

pub open spec fn sfl_notes_line() -> Seq<char> {
    " SfL = Superficial loss adjustment"@
}

pub open spec fn over_applied_note() -> Seq<char> {
    " [1] Superficial loss was potentially over-applied, resulting in a lower-than-expected allowable capital loss.\n     See I.1 vs I.2 under \"Interpretations of ACB distribution\" at https://github.com/tsiemens/acb/wiki/Superficial-Losses"@
}

/// The delta is a sale with a superficial loss.
pub open spec fn shows_sfl(d: TxDelta) -> bool {
    d.tx.action_specifics is Sell && is_sfl_delta(d)
}

/// The total of the year `y` among the totals (zero where it has none).
pub open spec fn year_total_spec(ys: Seq<(i32, Dec)>, y: i32) -> Dec {
    let k = year_pos(ys, y);
    if k < 0 {
        zero_gain()
    } else {
        ys[k].1
    }
}

/// The footer cell under "Commission": "Total" and the years.
pub open spec fn footer_label(years: Seq<i32>) -> Seq<char> {
    if years.len() > 0 {
        "Total"@ + "\n"@ + join_spec(years.map_values(|y: i32| int_display(y as int)), "\n"@)
    } else {
        "Total"@
    }
}

/// The footer cell under "Cap. Gain": the total and each year's gains.
pub open spec fn footer_values(ph: PrintHelper, g: CumulativeCapitalGains, years: Seq<i32>) -> Seq<
    char,
> {
    let total = plus_minus_dollar(ph, g.capital_gains_total, false);
    if years.len() > 0 {
        total + "\n"@ + join_spec(
            years.map_values(
                |y: i32|
                    plus_minus_dollar(
                        ph,
                        year_total_spec(g.capital_gains_years_totals@, y),
                        false,
                    ),
            ),
            "\n"@,
        )
    } else {
        total
    }
}

pub open spec fn sorted_gain_years(g: CumulativeCapitalGains) -> Seq<i32> {
    sort_ints(g.capital_gains_years_totals@.map_values(|p: (i32, Dec)| p.0))
}

/// The table of the deltas: a row each (see `tx_row`), the capital gains in
/// the footer, and notes where superficial losses show. `None` where an
/// amount overflows.
pub open spec fn tx_table_ok(
    ph: PrintHelper,
    ds: Seq<TxDelta>,
    g: CumulativeCapitalGains,
    t: RenderTable,
) -> bool {
    let years = sorted_gain_years(g);
    let saw_sfl = exists|i: int| 0 <= i < ds.len() && #[trigger] shows_sfl(ds[i]);
    let saw_over = exists|i: int|
        0 <= i < ds.len() && #[trigger] shows_sfl(ds[i]) && ds[i].sfl->0.potentially_over_applied;
    &&& t.header@.map_values(|c: String| c@) == tx_table_header()
    &&& t.rows@.len() == ds.len()
    &&& forall|i: int|
        0 <= i < ds.len() ==> Some((#[trigger] t.rows@[i])@.map_values(|c: String| c@)) == tx_row(
            ph,
            ds[i],
        )
    &&& t.footer@.map_values(|c: String| c@) == Seq::new(16, |i: int| ""@).update(
        8,
        footer_label(years),
    ).update(9, footer_values(ph, g, years))
    &&& t.notes@.map_values(|c: String| c@) == (if saw_sfl {
        seq![sfl_notes_line()]
    } else {
        Seq::empty()
    }) + (if saw_over {
        seq![over_applied_note()]
    } else {
        Seq::empty()
    })
    &&& t.errors@.len() == 0
}

fn tx_table_header_exec() -> (r: Vec<String>)
    ensures
        r@.map_values(|c: String| c@) == tx_table_header(),
{
    let r = vec![
        "Security".to_string(),
        "Trade Date".to_string(),
        "Settl. Date".to_string(),
        "TX".to_string(),
        "Amount".to_string(),
        "Shares".to_string(),
        "Amt/Share".to_string(),
        "ACB".to_string(),
        "Commission".to_string(),
        "Cap. Gain".to_string(),
        "Share Balance".to_string(),
        "ACB +/-".to_string(),
        "New ACB".to_string(),
        "New ACB/Share".to_string(),
        "Affiliate".to_string(),
        "Memo".to_string(),
    ];
    proof {
        assert(r@.map_values(|c: String| c@) =~= tx_table_header());
    }
    r
}

/// The footer of the transaction table.
fn tx_table_footer(ph: &PrintHelper, gains: &CumulativeCapitalGains) -> (r: Vec<String>)
    ensures
        r@.map_values(|c: String| c@) == Seq::new(16, |i: int| ""@).update(
            8,
            footer_label(sorted_gain_years(*gains)),
        ).update(9, footer_values(*ph, *gains, sorted_gain_years(*gains))),
{
    let years = gains.capital_gains_year_totals_keys_sorted();
    let ghost ys = years@;
    let mut year_strs: Vec<String> = Vec::new();
    let mut year_val_strs: Vec<String> = Vec::new();
    let mut i: usize = 0;
    while i < years.len()
        invariant
            i <= years@.len(),
            ys == years@,
            year_strs@.map_values(|c: String| c@) == ys.subrange(0, i as int).map_values(
                |y: i32| int_display(y as int),
            ),
            year_val_strs@.map_values(|c: String| c@) == ys.subrange(0, i as int).map_values(
                |y: i32|
                    plus_minus_dollar(
                        *ph,
                        year_total_spec(gains.capital_gains_years_totals@, y),
                        false,
                    ),
            ),
        decreases years@.len() - i,
    {
        let y = years[i];
        let ghost b1 = year_strs@;
        let ghost b2 = year_val_strs@;
        year_strs.push(int_to_string(y as i64));
        let total = gains.year_total(y);
        year_val_strs.push(ph.plus_minus_dollar(total, false));
        proof {
            assert(b1.map_values(|c: String| c@).len() == i);
            assert(b2.map_values(|c: String| c@).len() == i);
            assert(b1.len() == i);
            assert(b2.len() == i);
            assert forall|j: int| 0 <= j < i + 1 implies year_strs@[j]@ == int_display(
                ys[j] as int,
            ) && year_val_strs@[j]@ == plus_minus_dollar(
                *ph,
                year_total_spec(gains.capital_gains_years_totals@, ys[j]),
                false,
            ) by {
                if j < i {
                    assert(year_strs@[j] == b1[j]);
                    assert(year_val_strs@[j] == b2[j]);
                    assert(b1.map_values(|c: String| c@)[j] == b1[j]@);
                    assert(b2.map_values(|c: String| c@)[j] == b2[j]@);
                }
            }
            assert(year_strs@.map_values(|c: String| c@) =~= ys.subrange(0, i + 1).map_values(
                |y: i32| int_display(y as int),
            ));
            assert(year_val_strs@.map_values(|c: String| c@) =~= ys.subrange(0, i + 1).map_values(
                |y: i32|
                    plus_minus_dollar(
                        *ph,
                        year_total_spec(gains.capital_gains_years_totals@, y),
                        false,
                    ),
            ));
        }
        i += 1;
    }
    proof {
        assert(ys.subrange(0, ys.len() as int) =~= ys);
    }
    let mut label = "Total".to_string();
    let mut vals = ph.plus_minus_dollar(gains.capital_gains_total, false);
    if years.len() > 0 {
        label.append("\n");
        let js = join(&year_strs, "\n");
        label.append(js.as_str());
        vals.append("\n");
        let jv = join(&year_val_strs, "\n");
        vals.append(jv.as_str());
    }
    let mut footer: Vec<String> = Vec::new();
    let mut k: usize = 0;
    while k < 16
        invariant
            k <= 16,
            footer@.len() == k,
            forall|q: int| 0 <= q < k ==> (#[trigger] footer@[q])@ == ""@,
        decreases 16 - k,
    {
        footer.push(String::new());
        proof {
            reveal_strlit("");
        }
        k += 1;
    }
    footer.set(8, label);
    footer.set(9, vals);
    proof {
        assert(footer@.map_values(|c: String| c@) =~= Seq::new(16, |i: int| ""@).update(
            8,
            footer_label(ys),
        ).update(9, footer_values(*ph, *gains, ys)));
    }
    footer
}

/// The table model of the deltas: a row each (see `tx_row`), the capital
/// gains in total and by year in the footer, and notes on superficial
/// losses. Amounts are shown to the cent unless `render_full_dollar_values`;
/// a missing value reads "None" where `display_none` (else "-"). Fails where
/// an amount to show overflows.
pub fn render_tx_table_model(
    deltas: &Vec<TxDelta>,
    gains: &CumulativeCapitalGains,
    render_full_dollar_values: bool,
    display_none: bool,
) -> (r: Result<RenderTable, String>)
    ensures
        (exists|i: int|
            0 <= i < deltas@.len() && tx_row(
                PrintHelper { print_all_decimals: render_full_dollar_values, display_none },
                #[trigger] deltas@[i],
            ) is None) <==> r is Err,
        r is Err ==> r->Err_0@ == RENDER_OVERFLOW_ERROR@,
        r is Ok ==> tx_table_ok(
            PrintHelper { print_all_decimals: render_full_dollar_values, display_none },
            deltas@,
            *gains,
            r->Ok_0,
        ),
{
    let ph = PrintHelper::new(render_full_dollar_values, display_none);
    let header = tx_table_header_exec();
    let mut rows: Vec<Vec<String>> = Vec::new();
    let mut saw_sfl = false;
    let mut saw_over = false;
    let mut i: usize = 0;
    while i < deltas.len()
        invariant
            i <= deltas@.len(),
            ph == (PrintHelper { print_all_decimals: render_full_dollar_values, display_none }),
            rows@.len() == i,
            forall|q: int|
                0 <= q < i ==> Some((#[trigger] rows@[q])@.map_values(|c: String| c@)) == tx_row(
                    ph,
                    deltas@[q],
                ),
            saw_sfl == exists|q: int| 0 <= q < i && #[trigger] shows_sfl(deltas@[q]),
            saw_over == exists|q: int|
                0 <= q < i && #[trigger] shows_sfl(deltas@[q])
                    && deltas@[q].sfl->0.potentially_over_applied,
        decreases deltas@.len() - i,
    {
        let d = &deltas[i];
        let row = match tx_row_exec(&ph, d) {
            Some(row) => row,
            None => {
                return Err(RENDER_OVERFLOW_ERROR.to_string());
            },
        };
        let is_sell = match &d.tx.action_specifics {
            TxActionSpecifics::Sell(_) => true,
            _ => false,
        };
        if is_sell && d.is_superficial_loss() {
            saw_sfl = true;
            let over = match &d.sfl {
                Some(sfl) => sfl.potentially_over_applied,
                None => false,
            };
            if over {
                saw_over = true;
            }
        }
        let ghost before = rows@;
        rows.push(row);
        proof {
            assert forall|q: int|
                0 <= q < i + 1 implies Some((#[trigger] rows@[q])@.map_values(|c: String| c@))
                == tx_row(ph, deltas@[q]) by {
                if q < i {
                    assert(rows@[q] == before[q]);
                }
            }
            if saw_sfl {
                if !(exists|q: int| 0 <= q < i && #[trigger] shows_sfl(deltas@[q])) {
                    assert(shows_sfl(deltas@[i as int]));
                }
            } else {
                assert forall|q: int| 0 <= q < i + 1 implies !#[trigger] shows_sfl(deltas@[q]) by {}
            }
            if saw_over {
                if !(exists|q: int|
                    0 <= q < i && #[trigger] shows_sfl(deltas@[q])
                        && deltas@[q].sfl->0.potentially_over_applied) {
                    assert(shows_sfl(deltas@[i as int]) && deltas@[i as int].sfl->0.potentially_over_applied);
                }
            } else {
                assert forall|q: int|
                    0 <= q < i + 1 implies !(#[trigger] shows_sfl(deltas@[q])
                    && deltas@[q].sfl->0.potentially_over_applied) by {}
            }
        }
        i += 1;
    }
    proof {
        assert forall|q: int| 0 <= q < deltas@.len() implies tx_row(ph, #[trigger] deltas@[q]) is Some by {
            assert(Some(rows@[q]@.map_values(|c: String| c@)) == tx_row(ph, deltas@[q]));
        }
    }
    let footer = tx_table_footer(&ph, gains);
    let mut notes: Vec<String> = Vec::new();
    if saw_sfl {
        notes.push(" SfL = Superficial loss adjustment".to_string());
    }
    if saw_over {
        notes.push(
            " [1] Superficial loss was potentially over-applied, resulting in a lower-than-expected allowable capital loss.\n     See I.1 vs I.2 under \"Interpretations of ACB distribution\" at https://github.com/tsiemens/acb/wiki/Superficial-Losses".to_string(),
        );
    }
    proof {
        assert(notes@.map_values(|c: String| c@) =~= (if saw_sfl {
            seq![sfl_notes_line()]
        } else {
            Seq::empty()
        }) + (if saw_over {
            seq![over_applied_note()]
        } else {
            Seq::empty()
        }));
    }
    Ok(RenderTable { header, rows, footer, notes, errors: Vec::new() })
}

/// The table of the capital gains: a row for each year (in order) with its
/// gains.
pub fn render_aggregate_capital_gains(
    gains: &CumulativeCapitalGains,
    render_full_dollar_values: bool,
    display_none: bool,
) -> (r: RenderTable)
    ensures
        r.header@.map_values(|c: String| c@) == seq!["Year"@, "Capital Gains"@],
        r.rows@.len() == sorted_gain_years(*gains).len(),
        forall|i: int|
            0 <= i < r.rows@.len() ==> (#[trigger] r.rows@[i])@.map_values(|c: String| c@) == seq![
                int_display(sorted_gain_years(*gains)[i] as int),
                plus_minus_dollar(
                    PrintHelper { print_all_decimals: render_full_dollar_values, display_none },
                    year_total_spec(gains.capital_gains_years_totals@, sorted_gain_years(*gains)[i]),
                    false,
                ),
            ],
        r.footer@.len() == 0 && r.notes@.len() == 0 && r.errors@.len() == 0,
{
    let ph = PrintHelper::new(render_full_dollar_values, display_none);
    let years = gains.capital_gains_year_totals_keys_sorted();
    let mut rows: Vec<Vec<String>> = Vec::new();
    let mut i: usize = 0;
    while i < years.len()
        invariant
            i <= years@.len(),
            years@ == sorted_gain_years(*gains),
            ph == (PrintHelper { print_all_decimals: render_full_dollar_values, display_none }),
            rows@.len() == i,
            forall|q: int|
                0 <= q < i ==> (#[trigger] rows@[q])@.map_values(|c: String| c@) == seq![
                    int_display(years@[q] as int),
                    plus_minus_dollar(
                        ph,
                        year_total_spec(gains.capital_gains_years_totals@, years@[q]),
                        false,
                    ),
                ],
        decreases years@.len() - i,
    {
        let y = years[i];
        let total = gains.year_total(y);
        let row = vec![int_to_string(y as i64), ph.plus_minus_dollar(total, false)];
        proof {
            assert(row@.map_values(|c: String| c@) =~= seq![
                int_display(y as int),
                plus_minus_dollar(ph, year_total_spec(gains.capital_gains_years_totals@, y), false),
            ]);
        }
        let ghost before = rows@;
        rows.push(row);
        proof {
            assert forall|q: int|
                0 <= q < i + 1 implies (#[trigger] rows@[q])@.map_values(|c: String| c@) == seq![
                int_display(years@[q] as int),
                plus_minus_dollar(
                    ph,
                    year_total_spec(gains.capital_gains_years_totals@, years@[q]),
                    false,
                ),
            ] by {
                if q < i {
                    assert(rows@[q] == before[q]);
                }
            }
        }
        i += 1;
    }
    let header = vec!["Year".to_string(), "Capital Gains".to_string()];
    proof {
        assert(header@.map_values(|c: String| c@) =~= seq!["Year"@, "Capital Gains"@]);
    }
    RenderTable { header, rows, footer: Vec::new(), notes: Vec::new(), errors: Vec::new() }
}

/// `x` put before the first name that orders after it.
pub open spec fn insert_str(s: Seq<Seq<char>>, x: Seq<char>) -> Seq<Seq<char>>
    decreases s.len(),
{
    if s.len() == 0 {
        seq![x]
    } else if chars_lt(x, s[0]) {
        seq![x] + s
    } else {
        seq![s[0]] + insert_str(s.drop_first(), x)
    }
}

/// The names in order (an insertion sort).
pub open spec fn sort_strs(s: Seq<Seq<char>>) -> Seq<Seq<char>>
    decreases s.len(),
{
    if s.len() == 0 {
        s
    } else {
        insert_str(sort_strs(s.drop_last()), s.last())
    }
}

proof fn lemma_insert_str_at(s: Seq<Seq<char>>, x: Seq<char>, pos: int)
    requires
        0 <= pos <= s.len(),
        forall|j: int| 0 <= j < pos ==> !chars_lt(x, #[trigger] s[j]),
        pos < s.len() ==> chars_lt(x, s[pos]),
    ensures
        insert_str(s, x) == s.insert(pos, x),
    decreases s.len(),
{
    if s.len() == 0 {
        assert(s.insert(pos, x) =~= seq![x]);
    } else if pos == 0 {
        assert(s.insert(pos, x) =~= seq![x] + s);
    } else {
        let t = s.drop_first();
        assert forall|j: int| 0 <= j < pos - 1 implies !chars_lt(x, #[trigger] t[j]) by {
            assert(t[j] == s[j + 1]);
        }
        lemma_insert_str_at(t, x, pos - 1);
        assert(s.insert(pos, x) =~= seq![s[0]] + t.insert(pos - 1, x));
    }
}

fn sort_strings(v: &Vec<String>) -> (r: Vec<String>)
    ensures
        strings_view(r@) == sort_strs(strings_view(v@)),
{
    let ghost vv = strings_view(v@);
    let mut out: Vec<String> = Vec::new();
    let mut i: usize = 0;
    proof {
        assert(strings_view(out@) =~= Seq::<Seq<char>>::empty());
    }
    while i < v.len()
        invariant
            i <= v@.len(),
            vv == strings_view(v@),
            strings_view(out@) == sort_strs(vv.subrange(0, i as int)),
        decreases v@.len() - i,
    {
        let x = v[i].clone();
        let mut pos: usize = 0;
        while pos < out.len() && !str_lt(x.as_str(), out[pos].as_str())
            invariant
                pos <= out@.len(),
                forall|j: int| 0 <= j < pos ==> !chars_lt(x@, #[trigger] strings_view(out@)[j]),
            decreases out@.len() - pos,
        {
            proof {
                assert(strings_view(out@)[pos as int] == out@[pos as int]@);
            }
            pos += 1;
        }
        let ghost ov = strings_view(out@);
        proof {
            if pos < out@.len() {
                assert(ov[pos as int] == out@[pos as int]@);
            }
            lemma_insert_str_at(ov, x@, pos as int);
            assert(vv.subrange(0, i + 1).drop_last() =~= vv.subrange(0, i as int));
            assert(vv[i as int] == x@);
        }
        out.insert(pos, x);
        proof {
            assert(strings_view(out@) =~= ov.insert(pos as int, x@));
        }
        i += 1;
    }
    proof {
        assert(vv.subrange(0, i as int) =~= vv);
    }
    out
}

/// The cells of a day: its total and each security's cost.
pub open spec fn day_cells(ph: PrintHelper, d: DayCostsView, secs: Seq<Seq<char>>) -> Seq<Seq<char>> {
    seq![dollar_str(ph, d.total)] + secs.map_values(|sec: Seq<char>| dollar_str(ph, cost_of(d.costs, sec)->0))
}

fn day_cells_exec(ph: &PrintHelper, c: &MaxSingleDayCosts, secs: &Vec<String>, row: &mut Vec<String>)
    requires
        day_has_all(c@, strings_view(secs@)),
    ensures
        final(row)@.map_values(|x: String| x@) == old(row)@.map_values(|x: String| x@) + day_cells(
            *ph,
            c@,
            strings_view(secs@),
        ),
{
    let ghost r0 = row@.map_values(|x: String| x@);
    let ghost sv = strings_view(secs@);
    row.push(ph.dollar_str(c.total.get()));
    let mut k: usize = 0;
    proof {
        assert(row@.map_values(|x: String| x@) =~= r0 + seq![dollar_str(*ph, c@.total)] + sv.subrange(
            0,
            0,
        ).map_values(|sec: Seq<char>| dollar_str(*ph, cost_of(c@.costs, sec)->0)));
    }
    while k < secs.len()
        invariant
            k <= secs@.len(),
            sv == strings_view(secs@),
            day_has_all(c@, sv),
            row@.map_values(|x: String| x@) == r0 + seq![dollar_str(*ph, c@.total)] + sv.subrange(
                0,
                k as int,
            ).map_values(|sec: Seq<char>| dollar_str(*ph, cost_of(c@.costs, sec)->0)),
        decreases secs@.len() - k,
    {
        proof {
            assert(sv[k as int] == secs@[k as int]@);
            assert(cost_of(c@.costs, sv[k as int]) is Some);
        }
        let v = match c.cost_of(&secs[k]) {
            Some(v) => v,
            None => {
                proof {
                    assert(false);
                }
                GreaterEqualZeroDecimal::zero()
            },
        };
        let ghost before = row@.map_values(|x: String| x@);
        row.push(ph.dollar_str(v.get()));
        proof {
            assert(row@.map_values(|x: String| x@) =~= before.push(dollar_str(*ph, v@)));
            assert(sv.subrange(0, k + 1) =~= sv.subrange(0, k as int).push(sv[k as int]));
            assert(row@.map_values(|x: String| x@) =~= r0 + seq![dollar_str(*ph, c@.total)]
                + sv.subrange(0, k + 1).map_values(
                |sec: Seq<char>| dollar_str(*ph, cost_of(c@.costs, sec)->0),
            ));
        }
        k += 1;
    }
    proof {
        assert(sv.subrange(0, k as int) =~= sv);
    }
}

/// The day kept for the year `y`.
pub open spec fn year_day(c: Costs, y: i32) -> DayCostsView {
    yearly_view(c.yearly@)[year_entry_pos(yearly_view(c.yearly@), y)].1
}

/// The tables of the total costs: one row for each day (date, total, and
/// each security's cost, securities in order), and one for each year (in
/// order) with the day of its highest total. Both carry the notes on the
/// deltas left out.
pub fn render_total_costs(costs: &Costs, render_full_dollar_values: bool, display_none: bool) -> (r:
    CostsTables)
    requires
        costs_complete(*costs),
    ensures
        ({
            let ph = PrintHelper { print_all_decimals: render_full_dollar_values, display_none };
            let secs = sort_strs(strings_view(costs.security_set@));
            let years = sort_ints(costs.yearly@.map_values(|p: (i32, MaxSingleDayCosts)| p.0));
            &&& r.total.header@.map_values(|c: String| c@) == seq!["Date"@, "Total"@] + secs
            &&& r.total.rows@.len() == costs.total@.len()
            &&& forall|i: int|
                0 <= i < r.total.rows@.len() ==> (#[trigger] r.total.rows@[i])@.map_values(
                    |c: String| c@,
                ) == seq![date_display(costs.total@[i]@.day)] + day_cells(ph, costs.total@[i]@, secs)
            &&& r.total.notes@.map_values(|c: String| c@) == strings_view(costs.ignored_deltas@)
            &&& r.yearly.header@.map_values(|c: String| c@) == seq!["Year"@, "Date"@, "Total"@] + secs
            &&& r.yearly.rows@.len() == years.len()
            &&& forall|i: int|
                0 <= i < r.yearly.rows@.len() ==> (#[trigger] r.yearly.rows@[i])@.map_values(
                    |c: String| c@,
                ) == seq![int_display(years[i] as int), date_display(year_day(*costs, years[i]).day)]
                    + day_cells(ph, year_day(*costs, years[i]), secs)
            &&& r.yearly.notes@.map_values(|c: String| c@) == strings_view(costs.ignored_deltas@)
            &&& r.total.footer@.len() == 0 && r.total.errors@.len() == 0
            &&& r.yearly.footer@.len() == 0 && r.yearly.errors@.len() == 0
        }),
{
    let ph = PrintHelper::new(render_full_dollar_values, display_none);
    let ghost sv0 = strings_view(costs.security_set@);
    let secs = sort_strings(&costs.security_set);
    let ghost sv = strings_view(secs@);
    proof {
        lemma_sort_strs_elems(sv0);
        assert forall|i: int| 0 <= i < costs.total@.len() implies day_has_all(
            (#[trigger] costs.total@[i])@,
            sv,
        ) by {
            assert(day_has_all(costs.total@[i]@, sv0));
            assert forall|k: int| 0 <= k < sv.len() implies (#[trigger] cost_of(
                costs.total@[i]@.costs,
                sv[k],
            )) is Some by {
                let j = choose|j: int| 0 <= j < sv0.len() && sv0[j] == sv[k];
                assert(cost_of(costs.total@[i]@.costs, sv0[j]) is Some);
            }
        }
        assert forall|i: int| 0 <= i < costs.yearly@.len() implies day_has_all(
            (#[trigger] costs.yearly@[i]).1@,
            sv,
        ) by {
            assert(day_has_all(costs.yearly@[i].1@, sv0));
            assert forall|k: int| 0 <= k < sv.len() implies (#[trigger] cost_of(
                costs.yearly@[i].1@.costs,
                sv[k],
            )) is Some by {
                let j = choose|j: int| 0 <= j < sv0.len() && sv0[j] == sv[k];
                assert(cost_of(costs.yearly@[i].1@.costs, sv0[j]) is Some);
            }
        }
    }
    let mut total_header = vec!["Date".to_string(), "Total".to_string()];
    let mut yearly_header = vec!["Year".to_string(), "Date".to_string(), "Total".to_string()];
    let ghost th0 = total_header@.map_values(|c: String| c@);
    let ghost yh0 = yearly_header@.map_values(|c: String| c@);
    proof {
        assert(th0 =~= seq!["Date"@, "Total"@]);
        assert(yh0 =~= seq!["Year"@, "Date"@, "Total"@]);
    }
    let mut k: usize = 0;
    while k < secs.len()
        invariant
            k <= secs@.len(),
            sv == strings_view(secs@),
            total_header@.map_values(|c: String| c@) == th0 + sv.subrange(0, k as int),
            yearly_header@.map_values(|c: String| c@) == yh0 + sv.subrange(0, k as int),
        decreases secs@.len() - k,
    {
        let ghost t0 = total_header@;
        let ghost y0 = yearly_header@;
        total_header.push(secs[k].clone());
        yearly_header.push(secs[k].clone());
        proof {
            assert(sv.subrange(0, k + 1) =~= sv.subrange(0, k as int).push(sv[k as int]));
            assert(total_header@.map_values(|c: String| c@) =~= t0.map_values(|c: String| c@).push(
                sv[k as int],
            ));
            assert(yearly_header@.map_values(|c: String| c@) =~= y0.map_values(|c: String| c@).push(
                sv[k as int],
            ));
        }
        k += 1;
    }
    proof {
        assert(sv.subrange(0, k as int) =~= sv);
    }
    let mut total_rows: Vec<Vec<String>> = Vec::new();
    let mut i: usize = 0;
    while i < costs.total.len()
        invariant
            i <= costs.total@.len(),
            sv == strings_view(secs@),
            ph == (PrintHelper { print_all_decimals: render_full_dollar_values, display_none }),
            forall|q: int| 0 <= q < costs.total@.len() ==> day_has_all((#[trigger] costs.total@[q])@, sv),
            total_rows@.len() == i,
            forall|q: int|
                0 <= q < i ==> (#[trigger] total_rows@[q])@.map_values(|c: String| c@) == seq![
                    date_display(costs.total@[q]@.day),
                ] + day_cells(ph, costs.total@[q]@, sv),
        decreases costs.total@.len() - i,
    {
        let c = &costs.total[i];
        let mut row = vec![c.day.to_string()];
        proof {
            assert(row@.map_values(|x: String| x@) =~= seq![date_display(c@.day)]);
        }
        day_cells_exec(&ph, c, &secs, &mut row);
        let ghost before = total_rows@;
        total_rows.push(row);
        proof {
            assert forall|q: int|
                0 <= q < i + 1 implies (#[trigger] total_rows@[q])@.map_values(|c: String| c@)
                == seq![date_display(costs.total@[q]@.day)] + day_cells(ph, costs.total@[q]@, sv) by {
                if q < i {
                    assert(total_rows@[q] == before[q]);
                }
            }
        }
        i += 1;
    }
    let years = costs.sorted_years();
    let ghost yv = yearly_view(costs.yearly@);
    let ghost keys = costs.yearly@.map_values(|p: (i32, MaxSingleDayCosts)| p.0);
    proof {
        lemma_sort_ints_elems(keys);
    }
    let mut year_rows: Vec<Vec<String>> = Vec::new();
    let mut j: usize = 0;
    while j < years.len()
        invariant
            j <= years@.len(),
            years@ == sort_ints(keys),
            keys == costs.yearly@.map_values(|p: (i32, MaxSingleDayCosts)| p.0),
            yv == yearly_view(costs.yearly@),
            forall|i: int|
                0 <= i < sort_ints(keys).len() ==> exists|m: int|
                    0 <= m < keys.len() && keys[m] == #[trigger] sort_ints(keys)[i],
            sv == strings_view(secs@),
            ph == (PrintHelper { print_all_decimals: render_full_dollar_values, display_none }),
            forall|q: int|
                0 <= q < costs.yearly@.len() ==> day_has_all((#[trigger] costs.yearly@[q]).1@, sv),
            year_rows@.len() == j,
            forall|q: int|
                0 <= q < j ==> (#[trigger] year_rows@[q])@.map_values(|c: String| c@) == seq![
                    int_display(years@[q] as int),
                    date_display(year_day(*costs, years@[q]).day),
                ] + day_cells(ph, year_day(*costs, years@[q]), sv),
        decreases years@.len() - j,
    {
        let y = years[j];
        proof {
            let m = choose|m: int| 0 <= m < keys.len() && keys[m] == sort_ints(keys)[j as int];
            assert(yv[m].0 == y);
            lemma_year_entry_pos_found(yv, y, m);
        }
        let mut p: usize = costs.yearly.len();
        let mut found: Option<usize> = None;
        proof {
            assert(yv.subrange(0, p as int) =~= yv);
        }
        while p > 0
            invariant_except_break
                p <= costs.yearly@.len(),
                yv == yearly_view(costs.yearly@),
                found is None,
                year_entry_pos(yv, y) == year_entry_pos(yv.subrange(0, p as int), y),
            ensures
                match found {
                    Some(f) => year_entry_pos(yv, y) == f && f < costs.yearly@.len(),
                    None => year_entry_pos(yv, y) == -1,
                },
            decreases p,
        {
            proof {
                assert(yv.subrange(0, p as int).drop_last() =~= yv.subrange(0, p - 1));
            }
            if costs.yearly[p - 1].0 == y {
                found = Some(p - 1);
                break;
            }
            p -= 1;
        }
        let f = match found {
            Some(f) => f,
            None => {
                proof {
                    assert(false);
                }
                0
            },
        };
        let c = &costs.yearly[f].1;
        proof {
            assert(yv[f as int].1 == c@);
            assert(year_day(*costs, y) == c@);
        }
        let mut row = vec![int_to_string(y as i64), c.day.to_string()];
        proof {
            assert(row@.map_values(|x: String| x@) =~= seq![int_display(y as int), date_display(c@.day)]);
        }
        day_cells_exec(&ph, c, &secs, &mut row);
        let ghost before = year_rows@;
        year_rows.push(row);
        proof {
            assert forall|q: int|
                0 <= q < j + 1 implies (#[trigger] year_rows@[q])@.map_values(|c: String| c@) == seq![
                int_display(years@[q] as int),
                date_display(year_day(*costs, years@[q]).day),
            ] + day_cells(ph, year_day(*costs, years@[q]), sv) by {
                if q < j {
                    assert(year_rows@[q] == before[q]);
                }
            }
        }
        j += 1;
    }
    let notes1 = clone_strings(&costs.ignored_deltas);
    let notes2 = clone_strings(&costs.ignored_deltas);
    CostsTables {
        total: RenderTable {
            header: total_header,
            rows: total_rows,
            footer: Vec::new(),
            notes: notes1,
            errors: Vec::new(),
        },
        yearly: RenderTable {
            header: yearly_header,
            rows: year_rows,
            footer: Vec::new(),
            notes: notes2,
            errors: Vec::new(),
        },
    }
}

fn clone_strings(v: &Vec<String>) -> (r: Vec<String>)
    ensures
        r@.map_values(|c: String| c@) == strings_view(v@),
{
    let mut out: Vec<String> = Vec::new();
    let mut i: usize = 0;
    while i < v.len()
        invariant
            i <= v@.len(),
            out@.map_values(|c: String| c@) == strings_view(v@).subrange(0, i as int),
        decreases v@.len() - i,
    {
        let ghost before = out@;
        let x = v[i].clone();
        out.push(x);
        proof {
            assert(before.map_values(|c: String| c@).len() == i);
            assert(before.len() == i);
            assert forall|j: int| 0 <= j < i + 1 implies out@[j]@ == strings_view(v@)[j] by {
                if j < i {
                    assert(out@[j] == before[j]);
                    assert(before.map_values(|c: String| c@)[j] == before[j]@);
                }
            }
            assert(out@.map_values(|c: String| c@) =~= strings_view(v@).subrange(0, i + 1));
        }
        i += 1;
    }
    proof {
        assert(strings_view(v@).subrange(0, i as int) =~= strings_view(v@));
    }
    out
}

proof fn lemma_year_entry_pos_found(s: Seq<(i32, DayCostsView)>, y: i32, m: int)
    requires
        0 <= m < s.len(),
        s[m].0 == y,
    ensures
        0 <= year_entry_pos(s, y) < s.len(),
        s[year_entry_pos(s, y)].0 == y,
    decreases s.len(),
{
    if s.last().0 != y {
        lemma_year_entry_pos_found(s.drop_last(), y, m);
    }
}

proof fn lemma_insert_str_elems(s: Seq<Seq<char>>, x: Seq<char>)
    ensures
        insert_str(s, x).len() == s.len() + 1,
        forall|i: int|
            0 <= i < insert_str(s, x).len() ==> #[trigger] insert_str(s, x)[i] == x || exists|j: int|
                0 <= j < s.len() && s[j] == insert_str(s, x)[i],
    decreases s.len(),
{
    if s.len() > 0 && !chars_lt(x, s[0]) {
        let t = s.drop_first();
        lemma_insert_str_elems(t, x);
        assert forall|i: int| 0 <= i < insert_str(s, x).len() implies #[trigger] insert_str(s, x)[i]
            == x || exists|j: int| 0 <= j < s.len() && s[j] == insert_str(s, x)[i] by {
            if i == 0 {
                assert(s[0] == insert_str(s, x)[i]);
            } else {
                let e = insert_str(t, x)[i - 1];
                assert(insert_str(s, x)[i] == e);
                if e != x {
                    let j = choose|j: int| 0 <= j < t.len() && t[j] == e;
                    assert(s[j + 1] == e);
                }
            }
        }
    } else if s.len() > 0 {
        assert forall|i: int| 0 <= i < insert_str(s, x).len() implies #[trigger] insert_str(s, x)[i]
            == x || exists|j: int| 0 <= j < s.len() && s[j] == insert_str(s, x)[i] by {
            if i > 0 {
                assert(s[i - 1] == insert_str(s, x)[i]);
            }
        }
    }
}

proof fn lemma_sort_strs_elems(s: Seq<Seq<char>>)
    ensures
        sort_strs(s).len() == s.len(),
        forall|i: int|
            0 <= i < sort_strs(s).len() ==> exists|j: int|
                0 <= j < s.len() && s[j] == #[trigger] sort_strs(s)[i],
    decreases s.len(),
{
    if s.len() > 0 {
        let t = s.drop_last();
        lemma_sort_strs_elems(t);
        lemma_insert_str_elems(sort_strs(t), s.last());
        assert forall|i: int| 0 <= i < sort_strs(s).len() implies exists|j: int|
            0 <= j < s.len() && s[j] == #[trigger] sort_strs(s)[i] by {
            let e = sort_strs(s)[i];
            assert(insert_str(sort_strs(t), s.last())[i] == e);
            if e == s.last() {
                assert(s[s.len() - 1] == e);
            } else {
                let k = choose|k: int| 0 <= k < sort_strs(t).len() && sort_strs(t)[k] == e;
                let j = choose|j: int| 0 <= j < t.len() && t[j] == sort_strs(t)[k];
                assert(s[j] == e);
            }
        }
    }
}

proof fn lemma_insert_int_elems(s: Seq<i32>, x: i32)
    ensures
        crate::portfolio::bookkeeping::costs::insert_int(s, x).len() == s.len() + 1,
        forall|i: int|
            0 <= i < crate::portfolio::bookkeeping::costs::insert_int(s, x).len()
                ==> #[trigger] crate::portfolio::bookkeeping::costs::insert_int(s, x)[i] == x
                || exists|j: int|
                0 <= j < s.len() && s[j] == crate::portfolio::bookkeeping::costs::insert_int(s, x)[i],
    decreases s.len(),
{
    let ins = crate::portfolio::bookkeeping::costs::insert_int(s, x);
    if s.len() > 0 && !(x < s[0]) {
        let t = s.drop_first();
        lemma_insert_int_elems(t, x);
        let it = crate::portfolio::bookkeeping::costs::insert_int(t, x);
        assert forall|i: int| 0 <= i < ins.len() implies #[trigger] ins[i] == x || exists|j: int|
            0 <= j < s.len() && s[j] == ins[i] by {
            if i == 0 {
                assert(s[0] == ins[i]);
            } else {
                let e = it[i - 1];
                assert(ins[i] == e);
                if e != x {
                    let j = choose|j: int| 0 <= j < t.len() && t[j] == e;
                    assert(s[j + 1] == e);
                }
            }
        }
    } else if s.len() > 0 {
        assert forall|i: int| 0 <= i < ins.len() implies #[trigger] ins[i] == x || exists|j: int|
            0 <= j < s.len() && s[j] == ins[i] by {
            if i > 0 {
                assert(s[i - 1] == ins[i]);
            }
        }
    }
}

proof fn lemma_sort_ints_elems(s: Seq<i32>)
    ensures
        sort_ints(s).len() == s.len(),
        forall|i: int|
            0 <= i < sort_ints(s).len() ==> exists|j: int|
                0 <= j < s.len() && s[j] == #[trigger] sort_ints(s)[i],
    decreases s.len(),
{
    if s.len() > 0 {
        let t = s.drop_last();
        lemma_sort_ints_elems(t);
        lemma_insert_int_elems(sort_ints(t), s.last());
        assert forall|i: int| 0 <= i < sort_ints(s).len() implies exists|j: int|
            0 <= j < s.len() && s[j] == #[trigger] sort_ints(s)[i] by {
            let e = sort_ints(s)[i];
            assert(crate::portfolio::bookkeeping::costs::insert_int(sort_ints(t), s.last())[i] == e);
            if e == s.last() {
                assert(s[s.len() - 1] == e);
            } else {
                let k = choose|k: int| 0 <= k < sort_ints(t).len() && sort_ints(t)[k] == e;
                let j = choose|j: int| 0 <= j < t.len() && t[j] == sort_ints(t)[k];
                assert(s[j] == e);
            }
        }
    }
}

/// `rust_decimal` subtracts `b` from `a` exactly (at a scale a decimal
/// holds).
pub open spec fn sub_exact(a: Dec, b: Dec) -> bool {
    &&& decimal_checked_sub(a, b) is Some
    &&& is_difference(decimal_checked_sub(a, b)->0, a, b)
    &&& scale_ok(decimal_checked_sub(a, b)->0)
}

/// The ACB +/- cell of a delta is the change of its total ACB, new less old:
/// where both are known and the subtraction is exact, the old ACB plus the
/// cell's value is the new ACB, so a rise (a buy) shows with a `+` and a fall
/// (a sale) with a `-`.
pub proof fn law_acb_change_cell(ph: PrintHelper, d: TxDelta)
    requires
        d.pre_status.total_acb is Some,
        d.post_status.total_acb is Some,
        scale_ok(d.pre_status.total_acb->0@),
        scale_ok(d.post_status.total_acb->0@),
        sub_exact(d.post_status.total_acb->0@, d.pre_status.total_acb->0@),
    ensures
        acb_delta_cell(d) is Some && acb_delta_cell(d)->0 is Some,
        units(d.post_status.total_acb->0@) == units(d.pre_status.total_acb->0@) + units(
            acb_delta_cell(d)->0->0,
        ),
        tx_row(ph, d) is Some && units(d.post_status.total_acb->0@) > units(
            d.pre_status.total_acb->0@,
        ) ==> tx_row(ph, d)->0[11][0] == '+',
        tx_row(ph, d) is Some && units(d.post_status.total_acb->0@) < units(
            d.pre_status.total_acb->0@,
        ) ==> tx_row(ph, d)->0[11][0] == '-',
{
    let pre = d.pre_status.total_acb->0@;
    let post = d.post_status.total_acb->0@;
    let x = decimal_checked_sub(post, pre)->0;
    crate::util::decimal::lemma_units_of_difference(x, post, pre);
    crate::util::decimal::lemma_pow10_pos((crate::util::decimal::MAX_DEC_SCALE - x.scl()) as nat);
    reveal_strlit("+");
    reveal_strlit("-$");
    if units(post) > units(pre) {
        assert(x.mant() > 0) by (nonlinear_arith)
            requires
                units(x) == x.mant() * crate::util::decimal::pow10(
                    (crate::util::decimal::MAX_DEC_SCALE - x.scl()) as nat,
                ),
                units(x) > 0,
                crate::util::decimal::pow10((crate::util::decimal::MAX_DEC_SCALE - x.scl()) as nat)
                    > 0,
        ;
    }
    if units(post) < units(pre) {
        assert(x.mant() < 0) by (nonlinear_arith)
            requires
                units(x) == x.mant() * crate::util::decimal::pow10(
                    (crate::util::decimal::MAX_DEC_SCALE - x.scl()) as nat,
                ),
                units(x) < 0,
                crate::util::decimal::pow10((crate::util::decimal::MAX_DEC_SCALE - x.scl()) as nat)
                    > 0,
        ;
    }
}

} // verus!
