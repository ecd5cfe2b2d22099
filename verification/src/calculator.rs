//! The discounted-cash-flow calculator page: the table layout built
//! from already-formatted numbers, and its rendered markup.
//!
//! The library holds every number of the table as decimal text; the
//! floating-point arithmetic that produces those texts lives with the
//! caller, outside the library.

use vstd::prelude::*;

use crate::numeral::dec_rep;

verus! {

/// One row of the valuation table: a period label (`"1"`, `"2"`, …,
/// or `"Terminal"`) and the two money amounts as decimal text.
pub struct CashFlowRow {
    pub year: String,
    pub fcf: String,
    pub discounted: String,
}

/// The fully laid-out valuation table: one row per period plus the
/// terminal row, and the total as decimal text.
pub struct DcfTableContext {
    pub rows: Vec<CashFlowRow>,
    pub total_intrinsic_value: String,
}

/// The period labels demanded of a table with `years` explicit periods:
/// `"1"`, `"2"`, … in order, then the terminal sentinel.
pub open spec fn well_labeled(rows: Seq<CashFlowRow>, years: nat) -> bool {
    &&& rows.len() == years + 1
    &&& forall|i: int| 0 <= i < years ==> (#[trigger] rows[i].year)@ == dec_rep((i + 1) as nat)
    &&& rows[years as int].year@ == "Terminal"@
}

/// The whole layout contract of the valuation table: rows labeled in
/// order with the terminal sentinel last, every formatted amount
/// passed through unchanged, and the total carried as given.
pub open spec fn laid_out(
    ctx: DcfTableContext,
    projected: Seq<String>,
    discounted: Seq<String>,
    terminal_fcf: Seq<char>,
    terminal_pv: Seq<char>,
    total: Seq<char>,
) -> bool {
    &&& well_labeled(ctx.rows@, projected.len())
    &&& forall|i: int|
        0 <= i < projected.len() ==> (#[trigger] ctx.rows@[i].fcf)@ == projected[i]@
            && ctx.rows@[i].discounted@ == discounted[i]@
    &&& ctx.rows@.last().fcf@ == terminal_fcf
    &&& ctx.rows@.last().discounted@ == terminal_pv
    &&& ctx.total_intrinsic_value@ == total
}

/// Lays the table out from the formatted per-period amounts: row `i`
/// carries the label `i + 1` in decimal, the terminal row carries the
/// sentinel label, and every amount is passed through unchanged.
pub fn build_dcf_table(
    projected: &Vec<String>,
    discounted: &Vec<String>,
    terminal_fcf: String,
    terminal_pv: String,
    total: String,
) -> (ctx: DcfTableContext)
    requires
        projected@.len() == discounted@.len(),
    ensures
        laid_out(ctx, projected@, discounted@, terminal_fcf@, terminal_pv@, total@),
{
    let years = projected.len();
    let mut rows: Vec<CashFlowRow> = Vec::new();
    let mut i: usize = 0;
    while i < years
        invariant
            0 <= i <= years,
            years == projected@.len() == discounted@.len(),
            rows@.len() == i,
            forall|k: int| 0 <= k < i ==> (#[trigger] rows@[k].year)@ == dec_rep((k + 1) as nat),
            forall|k: int|
                0 <= k < i ==> (#[trigger] rows@[k].fcf)@ == projected@[k]@
                    && rows@[k].discounted@ == discounted@[k]@,
        decreases years - i,
    {
        let label = crate::numeral::u64_to_string((i as u64) + 1);
        rows.push(CashFlowRow {
            year: label,
            fcf: projected[i].clone(),
            discounted: discounted[i].clone(),
        });
        i = i + 1;
    }
    rows.push(CashFlowRow { year: String::from_str("Terminal"), fcf: terminal_fcf, discounted: terminal_pv });
    DcfTableContext { rows, total_intrinsic_value: total }
}

/// The markup of one table row.
pub open spec fn row_markup(r: CashFlowRow) -> Seq<char> {
    "<tr><td>"@ + r.year@ + "</td><td>"@ + r.fcf@ + "</td><td>"@ + r.discounted@ + "</td></tr>"@
}

/// The markup of a run of table rows, in order.
pub open spec fn rows_markup(rows: Seq<CashFlowRow>) -> Seq<char>
    decreases rows.len(),
{
    if rows.len() == 0 {
        Seq::<char>::empty()
    } else {
        rows_markup(rows.drop_last()) + row_markup(rows.last())
    }
}

/// The markup of the whole result table: a header row, one row per
/// period, and the totals element.
pub open spec fn table_markup(rows: Seq<CashFlowRow>, total: Seq<char>) -> Seq<char> {
    "<div id='dcf_table'><table><tr><th>Year</th><th>Projected FCF</th><th>Present Value</th></tr>"@
        + rows_markup(rows)
        + "</table><div class='total'>Total Intrinsic Value: $"@ + total + "</div></div>"@
}

/// Renders the laid-out table as its markup, exactly one row element
/// per `CashFlowRow` in order, with the totals element after them.
pub fn result_table(context: &DcfTableContext) -> (r: String)
    ensures
        r@ == table_markup(context.rows@, context.total_intrinsic_value@),
{
    let mut s = String::from_str(
        "<div id='dcf_table'><table><tr><th>Year</th><th>Projected FCF</th><th>Present Value</th></tr>",
    );
    let n = context.rows.len();
    let mut i: usize = 0;
    while i < n
        invariant
            0 <= i <= n,
            n == context.rows@.len(),
            s@ == "<div id='dcf_table'><table><tr><th>Year</th><th>Projected FCF</th><th>Present Value</th></tr>"@
                + rows_markup(context.rows@.take(i as int)),
        decreases n - i,
    {
        let row = &context.rows[i];
        s.append("<tr><td>");
        s.append(row.year.as_str());
        s.append("</td><td>");
        s.append(row.fcf.as_str());
        s.append("</td><td>");
        s.append(row.discounted.as_str());
        s.append("</td></tr>");
        proof {
            let rows = context.rows@;
            assert(rows.take(i + 1).drop_last() =~= rows.take(i as int));
            assert(rows.take(i + 1).last() == rows[i as int]);
            assert(s@ =~= "<div id='dcf_table'><table><tr><th>Year</th><th>Projected FCF</th><th>Present Value</th></tr>"@
                + rows_markup(rows.take(i + 1)));
        }
        i = i + 1;
    }
    s.append("</table><div class='total'>Total Intrinsic Value: $");
    s.append(context.total_intrinsic_value.as_str());
    s.append("</div></div>");
    proof {
        assert(context.rows@.take(n as int) =~= context.rows@);
        assert(s@ =~= table_markup(context.rows@, context.total_intrinsic_value@));
    }
    s
}

/// The text of the calculator page shell: the input form and the two
/// mount points the result fragments merge into.
pub open spec fn calculator_page_text() -> Seq<char> {
    "<!DOCTYPE html><html><head><title>DCF Calculator</title><link rel='stylesheet' href='/calculator/styles.css'><script type='module' src='https://cdn.jsdelivr.net/gh/starfederation/datastar/bundles/datastar.js'></script></head><body><h1>DCF Calculator</h1><form data-on-submit=\"@get('/calculator/calculate', {contentType: 'form'})\"><input name='fcf' placeholder='Free cash flow'><input name='growth' placeholder='Growth rate'><input name='discount' placeholder='Discount rate'><input name='terminal' placeholder='Terminal growth rate'><input name='years' placeholder='Years'><button type='submit'>Calculate</button></form><div id='intrinsic_value' class='value-display'></div><div id='dcf_table'></div></body></html>"@
}

/// Renders the calculator page shell.
pub fn index() -> (r: String)
    ensures
        r@ == calculator_page_text(),
{
    String::from_str(
        "<!DOCTYPE html><html><head><title>DCF Calculator</title><link rel='stylesheet' href='/calculator/styles.css'><script type='module' src='https://cdn.jsdelivr.net/gh/starfederation/datastar/bundles/datastar.js'></script></head><body><h1>DCF Calculator</h1><form data-on-submit=\"@get('/calculator/calculate', {contentType: 'form'})\"><input name='fcf' placeholder='Free cash flow'><input name='growth' placeholder='Growth rate'><input name='discount' placeholder='Discount rate'><input name='terminal' placeholder='Terminal growth rate'><input name='years' placeholder='Years'><button type='submit'>Calculate</button></form><div id='intrinsic_value' class='value-display'></div><div id='dcf_table'></div></body></html>",
    )
}

/// The text of the calculator stylesheet.
pub open spec fn calculator_style_text() -> Seq<char> {
    "body{font-family:sans-serif;margin:2rem}form{display:flex;flex-direction:column;gap:.5rem;max-width:20rem}table{border-collapse:collapse;margin-top:1rem}td,th{border:1px solid #ccc;padding:.25rem .75rem;text-align:right}.value-display{font-weight:bold;margin-top:1rem}.total{margin-top:.5rem;font-weight:bold}"@
}

/// Hands out the calculator stylesheet.
pub fn style() -> (r: &'static str)
    ensures
        r@ == calculator_style_text(),
{
    "body{font-family:sans-serif;margin:2rem}form{display:flex;flex-direction:column;gap:.5rem;max-width:20rem}table{border-collapse:collapse;margin-top:1rem}td,th{border:1px solid #ccc;padding:.25rem .75rem;text-align:right}.value-display{font-weight:bold;margin-top:1rem}.total{margin-top:.5rem;font-weight:bold}"
}

/// Rows that agree field text by field text render to the same markup.
proof fn lemma_rows_markup_congruent(a: Seq<CashFlowRow>, b: Seq<CashFlowRow>)
    requires
        a.len() == b.len(),
        forall|i: int|
            0 <= i < a.len() ==> (#[trigger] a[i].year)@ == b[i].year@ && a[i].fcf@ == b[i].fcf@
                && a[i].discounted@ == b[i].discounted@,
    ensures
        rows_markup(a) == rows_markup(b),
    decreases a.len(),
{
    if a.len() > 0 {
        let ad = a.drop_last();
        let bd = b.drop_last();
        assert(ad.len() == bd.len());
        assert forall|i: int|
            0 <= i < ad.len() implies (#[trigger] ad[i].year)@ == bd[i].year@ && ad[i].fcf@
            == bd[i].fcf@ && ad[i].discounted@ == bd[i].discounted@ by {
            assert(ad[i] == a[i]);
            assert(bd[i] == b[i]);
        }
        lemma_rows_markup_congruent(ad, bd);
        assert(a.last() == a[a.len() - 1]);
        assert(b.last() == b[b.len() - 1]);
        assert(row_markup(a.last()) == row_markup(b.last()));
    }
}

/// Laying the table out is deterministic: two tables laid out from
/// identical formatted inputs agree row by row — same period count,
/// same labels, same amounts — and render to the same markup.
pub proof fn lemma_layout_deterministic(
    a: DcfTableContext,
    b: DcfTableContext,
    projected: Seq<String>,
    discounted: Seq<String>,
    terminal_fcf: Seq<char>,
    terminal_pv: Seq<char>,
    total: Seq<char>,
)
    requires
        laid_out(a, projected, discounted, terminal_fcf, terminal_pv, total),
        laid_out(b, projected, discounted, terminal_fcf, terminal_pv, total),
    ensures
        a.rows@.len() == b.rows@.len(),
        forall|i: int|
            0 <= i < a.rows@.len() ==> (#[trigger] a.rows@[i].year)@ == b.rows@[i].year@
                && a.rows@[i].fcf@ == b.rows@[i].fcf@ && a.rows@[i].discounted@
                == b.rows@[i].discounted@,
        a.total_intrinsic_value@ == b.total_intrinsic_value@,
        table_markup(a.rows@, a.total_intrinsic_value@) == table_markup(
            b.rows@,
            b.total_intrinsic_value@,
        ),
{
    let years = projected.len() as int;
    assert forall|i: int| 0 <= i < a.rows@.len() implies (#[trigger] a.rows@[i].year)@
        == b.rows@[i].year@ && a.rows@[i].fcf@ == b.rows@[i].fcf@ && a.rows@[i].discounted@
        == b.rows@[i].discounted@ by {
        if i < years {
        } else {
            assert(a.rows@[i] == a.rows@.last());
            assert(b.rows@[i] == b.rows@.last());
            assert(a.rows@[i].year@ == "Terminal"@);
        }
    }
    lemma_rows_markup_congruent(a.rows@, b.rows@);
}

} // verus!
