//! The evaluation engine: a single-pass state machine over a program.
//!
//! Evaluation proceeds in phases. Statements are partitioned by kind:
//! define and portfolio statements are applied immediately in program
//! order while record statements are collected (plans are accepted but
//! deliberately produce no side effect). The collected records are then
//! stably sorted by their date string (lexicographic order, which equals
//! calendar order for the fixed `YYYY-MM-DD` shape) and applied in that
//! order. Finally the record outputs are bucketed by symbol and day into
//! the report.
//!
//! All arithmetic is exact; a mantissa that no longer fits its machine
//! integer surfaces as an [`EngineError`]. On every input whose replay
//! stays in range, evaluation succeeds.
//!
//! The whole evaluation is specified by [`spec_eval_program`];
//! `Engine::evaluate` returns exactly the report that function describes.

use vstd::prelude::*;
use crate::decimal::{
    Decimal, SignedDecimal, dec_add, dec_to_signed, profit_of, sdec_add_mag, spec_dec_add,
    spec_dec_to_signed, spec_dec_zero, spec_profit, spec_sdec_add_mag, spec_sdec_zero,
};
use crate::dsl::ast::{
    Define, DefineV, Details, DetailsV, Portfolio as PortfolioStatement,
    PortfolioV as PortfolioStatementV, Program, Record, RecordV, Sign, Statement, StatementV,
    spec_details_symbol, spec_symbol_text,
};
use crate::evaluator::output::{Output, RecordOutput, RecordOutputV};
use crate::text::{spec_lex_le, str_le};

verus! {

/// The registry entry for a symbol: its canonical text, an optional human
/// alias and an optional target annual return.
#[derive(Debug, PartialEq, Clone)]
pub struct Asset {
    pub symbol: String,
    pub alias: Option<String>,
    pub target_return: Option<Decimal>,
}

/// The mathematical shape of an [`Asset`].
#[verifier::ext_equal]
pub struct AssetV {
    pub symbol: Seq<char>,
    pub alias: Option<Seq<char>>,
    pub target_return: Option<Decimal>,
}

impl View for Asset {
    type V = AssetV;

    open spec fn view(&self) -> AssetV {
        AssetV {
            symbol: self.symbol@,
            alias: match self.alias {
                Some(ref a) => Some(a@),
                None => None,
            },
            target_return: self.target_return,
        }
    }
}

impl Asset {
    /// An asset from its parts.
    pub fn new(symbol: String, alias: Option<String>, target_return: Option<Decimal>) -> (r: Asset)
        ensures
            r@.symbol == symbol@,
            r@.alias == (match alias {
                Some(ref a) => Some::<Seq<char>>(a@),
                None => None::<Seq<char>>,
            }),
            r@.target_return == target_return,
    {
        Asset { symbol, alias, target_return }
    }

    /// The canonical symbol text.
    pub fn get_symbol(&self) -> (r: &String)
        ensures
            r@ == self@.symbol,
    {
        &self.symbol
    }

    /// The optional alias.
    pub fn get_alias(&self) -> (r: &Option<String>)
        ensures
            self@.alias == (match r {
                Some(a) => Some::<Seq<char>>(a@),
                None => None::<Seq<char>>,
            }),
    {
        &self.alias
    }

    /// The optional target return.
    pub fn get_target_return(&self) -> (r: &Option<Decimal>)
        ensures
            *r == self@.target_return,
    {
        &self.target_return
    }

    /// A field-by-field copy.
    pub fn duplicate(&self) -> (r: Asset)
        ensures
            r@ == self@,
    {
        Asset {
            symbol: self.symbol.clone(),
            alias: match &self.alias {
                Some(a) => Some(a.clone()),
                None => None,
            },
            target_return: self.target_return,
        }
    }
}

/// A materialized portfolio: resolved asset copies and a target return
/// (zero when unspecified).
#[derive(Debug, PartialEq, Clone)]
pub struct Portfolio {
    pub name: String,
    pub assets: Vec<Asset>,
    pub target_return: Decimal,
}

/// The mathematical shape of a materialized [`Portfolio`].
#[verifier::ext_equal]
pub struct PortfolioV {
    pub name: Seq<char>,
    pub assets: Seq<AssetV>,
    pub target_return: Decimal,
}

impl View for Portfolio {
    type V = PortfolioV;

    open spec fn view(&self) -> PortfolioV {
        PortfolioV {
            name: self.name@,
            assets: self.assets@.map_values(|a: Asset| a@),
            target_return: self.target_return,
        }
    }
}

/// A stored plan (kept by name only; plans have no evaluator effect).
#[derive(Debug, PartialEq, Clone)]
pub struct Plan {
    pub name: String,
}

/// An evaluation failure: exact decimal arithmetic left the range of the
/// mantissa machine integers during the replay.
#[derive(Debug)]
pub struct EngineError {}

impl EngineError {
    /// An engine error.
    pub fn new() -> EngineError {
        EngineError {  }
    }
}

/// One record statement's snapshot: the statement and the metric state
/// right after applying it, keyed by symbol and date.
#[derive(Debug, PartialEq, Clone)]
pub struct Snapshot {
    pub symbol: String,
    pub date: String,
    pub statement: Record,
    pub total_purchase: Decimal,
    pub total_sale: Decimal,
    pub value: SignedDecimal,
    pub profit: SignedDecimal,
}

/// The mathematical shape of a [`Snapshot`].
#[verifier::ext_equal]
pub struct SnapshotV {
    pub symbol: Seq<char>,
    pub date: Seq<char>,
    pub statement: RecordV,
    pub total_purchase: Decimal,
    pub total_sale: Decimal,
    pub value: SignedDecimal,
    pub profit: SignedDecimal,
}

impl View for Snapshot {
    type V = SnapshotV;

    open spec fn view(&self) -> SnapshotV {
        SnapshotV {
            symbol: self.symbol@,
            date: self.date@,
            statement: self.statement@,
            total_purchase: self.total_purchase,
            total_sale: self.total_sale,
            value: self.value,
            profit: self.profit,
        }
    }
}

/// All snapshots of one symbol on one date, in application order.
#[derive(Debug, PartialEq, Clone)]
pub struct DailySnapshot {
    pub symbol: String,
    pub date: String,
    pub snapshots: Vec<Snapshot>,
}

/// The mathematical shape of a [`DailySnapshot`].
#[verifier::ext_equal]
pub struct DailySnapshotV {
    pub symbol: Seq<char>,
    pub date: Seq<char>,
    pub snapshots: Seq<SnapshotV>,
}

impl View for DailySnapshot {
    type V = DailySnapshotV;

    open spec fn view(&self) -> DailySnapshotV {
        DailySnapshotV {
            symbol: self.symbol@,
            date: self.date@,
            snapshots: self.snapshots@.map_values(|s: Snapshot| s@),
        }
    }
}

/// The complete evaluation result: the asset registry, the materialized
/// portfolios, and the per-symbol daily snapshots (keyed by canonical
/// symbol text, in order of first appearance).
pub struct AnalysisReport {
    pub assets: Vec<Asset>,
    pub portfolios: Vec<Portfolio>,
    pub daily_snapshot: Vec<(String, Vec<DailySnapshot>)>,
}

/// The mathematical shape of an [`AnalysisReport`].
#[verifier::ext_equal]
pub struct AnalysisReportV {
    pub assets: Seq<AssetV>,
    pub portfolios: Seq<PortfolioV>,
    pub daily_snapshot: Seq<(Seq<char>, Seq<DailySnapshotV>)>,
}

impl View for AnalysisReport {
    type V = AnalysisReportV;

    open spec fn view(&self) -> AnalysisReportV {
        AnalysisReportV {
            assets: self.assets@.map_values(|a: Asset| a@),
            portfolios: self.portfolios@.map_values(|p: Portfolio| p@),
            daily_snapshot: self.daily_snapshot@.map_values(
                |e: (String, Vec<DailySnapshot>)|
                    (e.0@, e.1@.map_values(|d: DailySnapshot| d@)),
            ),
        }
    }
}

impl AnalysisReport {
    /// An empty report.
    pub fn new() -> (r: AnalysisReport)
        ensures
            r@.assets =~= Seq::<AssetV>::empty(),
            r@.portfolios =~= Seq::<PortfolioV>::empty(),
            r@.daily_snapshot =~= Seq::<(Seq<char>, Seq<DailySnapshotV>)>::empty(),
    {
        AnalysisReport { assets: Vec::new(), portfolios: Vec::new(), daily_snapshot: Vec::new() }
    }

    /// The daily snapshots recorded for the given canonical symbol text,
    /// if any record mentioned it.
    #[verifier::loop_isolation(false)]
    pub fn daily_for(&self, symbol: &String) -> (r: Option<&Vec<DailySnapshot>>)
        ensures
            ({
                let i = spec_find_bucket(self@.daily_snapshot, symbol@);
                match r {
                    Some(v) => i >= 0 && v@.map_values(|d: DailySnapshot| d@) == self@.daily_snapshot[i].1,
                    None => i == -1,
                }
            }),
    {
        let n = self.daily_snapshot.len();
        let mut i: usize = 0;
        proof {
            lemma_find_bucket_props(self@.daily_snapshot, symbol@);
        }
        while i < n
            invariant
                i <= n,
                n == self@.daily_snapshot.len(),
                forall|k: int| 0 <= k < i ==> (#[trigger] self@.daily_snapshot[k]).0 != symbol@,
            decreases n - i,
        {
            proof {
                assert(self@.daily_snapshot[i as int].0 == self.daily_snapshot@[i as int].0@);
            }
            if self.daily_snapshot[i].0 == *symbol {
                proof {
                    assert(self@.daily_snapshot[i as int].1 == self.daily_snapshot@[
                        i as int
                    ].1@.map_values(|d: DailySnapshot| d@));
                    assert(spec_find_bucket(self@.daily_snapshot, symbol@) == i as int);
                }
                return Some(&self.daily_snapshot[i].1);
            }
            i = i + 1;
        }
        None
    }
}

/// The metric triple the replay carries per symbol (profit is derived at
/// output time).
#[derive(Debug, Clone, Copy, PartialEq, Eq, Structural)]
pub struct AssetMetric {
    pub total_purchase: Decimal,
    pub total_sale: Decimal,
    pub value: SignedDecimal,
}

impl AssetMetric {
    /// The derived profit `value - total_purchase + total_sale`, exact,
    /// or `None` when it leaves the signed mantissa range.
    pub fn get_profit(&self) -> (r: Option<SignedDecimal>)
        ensures
            r == spec_profit(self.value, self.total_purchase, self.total_sale),
    {
        profit_of(self.value, self.total_purchase, self.total_sale)
    }
}

/// The all-zero metric a symbol starts from.
pub open spec fn spec_metric_zero() -> AssetMetric {
    AssetMetric {
        total_purchase: spec_dec_zero(),
        total_sale: spec_dec_zero(),
        value: spec_sdec_zero(),
    }
}

/// The engine's working state.
pub struct EngineState {
    pub portfolios: Vec<Portfolio>,
    pub plans: Vec<Plan>,
    pub assets: Vec<Asset>,
    pub record_outputs: Vec<RecordOutput>,
    pub snapshots: Vec<(String, AssetMetric)>,
}

/// The mathematical shape of the engine's working state.
#[verifier::ext_equal]
pub struct EngineStateV {
    pub portfolios: Seq<PortfolioV>,
    pub plans: Seq<Seq<char>>,
    pub assets: Seq<AssetV>,
    pub record_outputs: Seq<RecordOutputV>,
    pub snapshots: Seq<(Seq<char>, AssetMetric)>,
}

impl View for EngineState {
    type V = EngineStateV;

    open spec fn view(&self) -> EngineStateV {
        EngineStateV {
            portfolios: self.portfolios@.map_values(|p: Portfolio| p@),
            plans: self.plans@.map_values(|p: Plan| p.name@),
            assets: self.assets@.map_values(|a: Asset| a@),
            record_outputs: self.record_outputs@.map_values(|o: RecordOutput| o@),
            snapshots: self.snapshots@.map_values(|e: (String, AssetMetric)| (e.0@, e.1)),
        }
    }
}

/// The empty engine state.
pub open spec fn spec_state_empty() -> EngineStateV {
    EngineStateV {
        portfolios: Seq::<PortfolioV>::empty(),
        plans: Seq::<Seq<char>>::empty(),
        assets: Seq::<AssetV>::empty(),
        record_outputs: Seq::<RecordOutputV>::empty(),
        snapshots: Seq::<(Seq<char>, AssetMetric)>::empty(),
    }
}

/// The index of the first registry entry for `sym`, or -1.
pub open spec fn spec_find_asset(assets: Seq<AssetV>, sym: Seq<char>) -> int
    decreases assets.len(),
{
    if assets.len() == 0 {
        -1
    } else if assets[0].symbol == sym {
        0
    } else {
        let r = spec_find_asset(assets.subrange(1, assets.len() as int), sym);
        if r == -1 {
            -1
        } else {
            r + 1
        }
    }
}

/// What the first-match index means.
pub proof fn lemma_find_asset_props(assets: Seq<AssetV>, sym: Seq<char>)
    ensures
        ({
            let r = spec_find_asset(assets, sym);
            &&& (r == -1 ==> forall|k: int|
                0 <= k < assets.len() ==> #[trigger] assets[k].symbol != sym)
            &&& (r != -1 ==> 0 <= r < assets.len() && assets[r].symbol == sym && forall|k: int|
                0 <= k < r ==> #[trigger] assets[k].symbol != sym)
        }),
    decreases assets.len(),
{
    if assets.len() > 0 && assets[0].symbol != sym {
        let tail = assets.subrange(1, assets.len() as int);
        lemma_find_asset_props(tail, sym);
        let rt = spec_find_asset(tail, sym);
        if rt == -1 {
            assert forall|k: int| 0 <= k < assets.len() implies (#[trigger] assets[k]).symbol
                != sym by {
                if k > 0 {
                    assert(assets[k] == tail[k - 1]);
                }
            }
        } else {
            assert(assets[rt + 1] == tail[rt]);
            assert forall|k: int| 0 <= k < rt + 1 implies (#[trigger] assets[k]).symbol != sym by {
                if k > 0 {
                    assert(assets[k] == tail[k - 1]);
                }
            }
        }
    }
}

/// The index of the first latest-metric entry for `sym`, or -1.
pub open spec fn spec_find_latest(latest: Seq<(Seq<char>, AssetMetric)>, sym: Seq<char>) -> int
    decreases latest.len(),
{
    if latest.len() == 0 {
        -1
    } else if latest[0].0 == sym {
        0
    } else {
        let r = spec_find_latest(latest.subrange(1, latest.len() as int), sym);
        if r == -1 {
            -1
        } else {
            r + 1
        }
    }
}

/// What the first-match index means.
pub proof fn lemma_find_latest_props(latest: Seq<(Seq<char>, AssetMetric)>, sym: Seq<char>)
    ensures
        ({
            let r = spec_find_latest(latest, sym);
            &&& (r == -1 ==> forall|k: int| 0 <= k < latest.len() ==> (#[trigger] latest[k]).0
                != sym)
            &&& (r != -1 ==> 0 <= r < latest.len() && latest[r].0 == sym && forall|k: int|
                0 <= k < r ==> (#[trigger] latest[k]).0 != sym)
        }),
    decreases latest.len(),
{
    if latest.len() > 0 && latest[0].0 != sym {
        let tail = latest.subrange(1, latest.len() as int);
        lemma_find_latest_props(tail, sym);
        let rt = spec_find_latest(tail, sym);
        if rt == -1 {
            assert forall|k: int| 0 <= k < latest.len() implies (#[trigger] latest[k]).0 != sym by {
                if k > 0 {
                    assert(latest[k] == tail[k - 1]);
                }
            }
        } else {
            assert(latest[rt + 1] == tail[rt]);
            assert forall|k: int| 0 <= k < rt + 1 implies (#[trigger] latest[k]).0 != sym by {
                if k > 0 {
                    assert(latest[k] == tail[k - 1]);
                }
            }
        }
    }
}

/// The index of the first snapshot bucket for `sym`, or -1.
pub open spec fn spec_find_bucket(
    buckets: Seq<(Seq<char>, Seq<DailySnapshotV>)>,
    sym: Seq<char>,
) -> int
    decreases buckets.len(),
{
    if buckets.len() == 0 {
        -1
    } else if buckets[0].0 == sym {
        0
    } else {
        let r = spec_find_bucket(buckets.subrange(1, buckets.len() as int), sym);
        if r == -1 {
            -1
        } else {
            r + 1
        }
    }
}

/// What the first-match index means.
pub proof fn lemma_find_bucket_props(
    buckets: Seq<(Seq<char>, Seq<DailySnapshotV>)>,
    sym: Seq<char>,
)
    ensures
        ({
            let r = spec_find_bucket(buckets, sym);
            &&& (r == -1 ==> forall|k: int| 0 <= k < buckets.len() ==> (#[trigger] buckets[k]).0
                != sym)
            &&& (r != -1 ==> 0 <= r < buckets.len() && buckets[r].0 == sym && forall|k: int|
                0 <= k < r ==> (#[trigger] buckets[k]).0 != sym)
        }),
    decreases buckets.len(),
{
    if buckets.len() > 0 && buckets[0].0 != sym {
        let tail = buckets.subrange(1, buckets.len() as int);
        lemma_find_bucket_props(tail, sym);
        let rt = spec_find_bucket(tail, sym);
        if rt == -1 {
            assert forall|k: int| 0 <= k < buckets.len() implies (#[trigger] buckets[k]).0
                != sym by {
                if k > 0 {
                    assert(buckets[k] == tail[k - 1]);
                }
            }
        } else {
            assert(buckets[rt + 1] == tail[rt]);
            assert forall|k: int| 0 <= k < rt + 1 implies (#[trigger] buckets[k]).0 != sym by {
                if k > 0 {
                    assert(buckets[k] == tail[k - 1]);
                }
            }
        }
    }
}

/// The index of the first daily snapshot for `date`, or -1.
pub open spec fn spec_find_date(days: Seq<DailySnapshotV>, date: Seq<char>) -> int
    decreases days.len(),
{
    if days.len() == 0 {
        -1
    } else if days[0].date == date {
        0
    } else {
        let r = spec_find_date(days.subrange(1, days.len() as int), date);
        if r == -1 {
            -1
        } else {
            r + 1
        }
    }
}

/// What the first-match index means.
pub proof fn lemma_find_date_props(days: Seq<DailySnapshotV>, date: Seq<char>)
    ensures
        ({
            let r = spec_find_date(days, date);
            &&& (r == -1 ==> forall|k: int| 0 <= k < days.len() ==> (#[trigger] days[k]).date
                != date)
            &&& (r != -1 ==> 0 <= r < days.len() && days[r].date == date && forall|k: int|
                0 <= k < r ==> (#[trigger] days[k]).date != date)
        }),
    decreases days.len(),
{
    if days.len() > 0 && days[0].date != date {
        let tail = days.subrange(1, days.len() as int);
        lemma_find_date_props(tail, date);
        let rt = spec_find_date(tail, date);
        if rt == -1 {
            assert forall|k: int| 0 <= k < days.len() implies (#[trigger] days[k]).date != date by {
                if k > 0 {
                    assert(days[k] == tail[k - 1]);
                }
            }
        } else {
            assert(days[rt + 1] == tail[rt]);
            assert forall|k: int| 0 <= k < rt + 1 implies (#[trigger] days[k]).date != date by {
                if k > 0 {
                    assert(days[k] == tail[k - 1]);
                }
            }
        }
    }
}

/// A registry upsert-and-sync: a fresh symbol is appended as a new entry;
/// an existing one has any supplied alias or target overwrite the stored
/// ones (absent fields leave prior values intact). Either way, the current
/// entry replaces every stale copy of the same symbol inside
/// already-materialized portfolios (portfolios hold value copies, so every
/// registry change re-synchronizes them).
pub open spec fn spec_upsert_asset(
    st: EngineStateV,
    sym: Seq<char>,
    alias: Option<Seq<char>>,
    target_return: Option<Decimal>,
) -> EngineStateV {
    let i = spec_find_asset(st.assets, sym);
    if i == -1 {
        let a1 = AssetV { symbol: sym, alias, target_return };
        EngineStateV {
            assets: st.assets.push(a1),
            portfolios: spec_sync_portfolios(st.portfolios, a1),
            ..st
        }
    } else {
        let a0 = st.assets[i];
        let a1 = AssetV {
            symbol: a0.symbol,
            alias: if alias is Some {
                alias
            } else {
                a0.alias
            },
            target_return: if target_return is Some {
                target_return
            } else {
                a0.target_return
            },
        };
        EngineStateV {
            assets: st.assets.update(i, a1),
            portfolios: spec_sync_portfolios(st.portfolios, a1),
            ..st
        }
    }
}

/// Every portfolio's copy of the updated asset's symbol is replaced by the
/// updated entry.
pub open spec fn spec_sync_portfolios(ps: Seq<PortfolioV>, a: AssetV) -> Seq<PortfolioV> {
    ps.map_values(
        |p: PortfolioV|
            PortfolioV {
                name: p.name,
                assets: p.assets.map_values(
                    |x: AssetV|
                        if x.symbol == a.symbol {
                            a
                        } else {
                            x
                        },
                ),
                target_return: p.target_return,
            },
    )
}

/// One record's effect on a symbol's metric triple. A buy adds the amount
/// to purchases and to value; a sell adds the magnitude to sales and
/// subtracts it from value; a mark replaces value and carries both totals
/// forward unchanged. `None` when the exact arithmetic leaves range.
pub open spec fn spec_apply_details(last: AssetMetric, d: DetailsV) -> Option<AssetMetric> {
    match d {
        DetailsV::Trade(t) => {
            let amt = t.signed_amount.value;
            let buying = t.signed_amount.sign == Sign::Positive;
            let purchase = if buying {
                spec_dec_add(last.total_purchase, amt)
            } else {
                Some(last.total_purchase)
            };
            let sale = if buying {
                Some(last.total_sale)
            } else {
                spec_dec_add(last.total_sale, amt)
            };
            let value = spec_sdec_add_mag(last.value, buying, amt);
            match (purchase, sale, value) {
                (Some(p), Some(s), Some(v)) => Some(
                    AssetMetric { total_purchase: p, total_sale: s, value: v },
                ),
                _ => None,
            }
        },
        DetailsV::Mark(m) => match spec_dec_to_signed(m.value) {
            Some(v) => Some(
                AssetMetric {
                    total_purchase: last.total_purchase,
                    total_sale: last.total_sale,
                    value: v,
                },
            ),
            None => None,
        },
    }
}

/// Applying one record: look up the symbol's latest metric (zero when
/// absent), apply the action, derive the profit, append the output, and
/// store the new latest metric.
pub open spec fn spec_calc_record(st: EngineStateV, rec: RecordV) -> Option<
    (EngineStateV, RecordOutputV),
> {
    let sym = spec_symbol_text(spec_details_symbol(rec.details));
    let li = spec_find_latest(st.snapshots, sym);
    let last = if li == -1 {
        spec_metric_zero()
    } else {
        st.snapshots[li].1
    };
    match spec_apply_details(last, rec.details) {
        None => None,
        Some(m) => match spec_profit(m.value, m.total_purchase, m.total_sale) {
            None => None,
            Some(profit) => {
                let out = RecordOutputV {
                    program: rec,
                    total_purchase: m.total_purchase,
                    total_sale: m.total_sale,
                    value: m.value,
                    profit,
                };
                let snapshots = if li == -1 {
                    st.snapshots.push((sym, m))
                } else {
                    st.snapshots.update(li, (sym, m))
                };
                Some(
                    (
                        EngineStateV {
                            record_outputs: st.record_outputs.push(out),
                            snapshots,
                            ..st
                        },
                        out,
                    ),
                )
            },
        },
    }
}

/// Evaluating one record: the symbol is upserted into the registry (bare,
/// with the portfolio sync that entails), then the record is applied.
pub open spec fn spec_eval_record(st: EngineStateV, rec: RecordV) -> Option<EngineStateV> {
    let sym = spec_symbol_text(spec_details_symbol(rec.details));
    let st1 = spec_upsert_asset(st, sym, None, None);
    match spec_calc_record(st1, rec) {
        None => None,
        Some((st2, _)) => Some(st2),
    }
}

/// Evaluating a define statement: an upsert with the statement's fields.
pub open spec fn spec_eval_define(st: EngineStateV, d: DefineV) -> EngineStateV {
    spec_upsert_asset(st, spec_symbol_text(d.symbol), d.alias, d.target_return)
}

/// Materializing a portfolio: each listed symbol resolves to the current
/// registry entry (a bare placeholder when unknown); the target return
/// defaults to zero.
pub open spec fn spec_eval_portfolio(st: EngineStateV, p: PortfolioStatementV) -> EngineStateV {
    let resolved = p.assets.map_values(
        |symv: crate::dsl::ast::SymbolV|
            {
                let text = spec_symbol_text(symv);
                let i = spec_find_asset(st.assets, text);
                if i == -1 {
                    AssetV { symbol: text, alias: None, target_return: None }
                } else {
                    st.assets[i]
                }
            },
    );
    let portfolio = PortfolioV {
        name: p.name,
        assets: resolved,
        target_return: match p.target_return {
            Some(t) => t,
            None => spec_dec_zero(),
        },
    };
    EngineStateV { portfolios: st.portfolios.push(portfolio), ..st }
}

/// Phase one: apply defines and portfolios in program order, collect the
/// records in program order, ignore plans.
pub open spec fn spec_phase_one(st: EngineStateV, prog: Seq<StatementV>) -> (
    EngineStateV,
    Seq<RecordV>,
)
    decreases prog.len(),
{
    if prog.len() == 0 {
        (st, Seq::<RecordV>::empty())
    } else {
        let (st1, recs) = spec_phase_one(st, prog.drop_last());
        match prog.last() {
            StatementV::Record(r) => (st1, recs.push(r)),
            StatementV::Plan(_) => (st1, recs),
            StatementV::Define(d) => (spec_eval_define(st1, d), recs),
            StatementV::Portfolio(p) => (spec_eval_portfolio(st1, p), recs),
        }
    }
}

/// Stable insertion of a record into a date-sorted sequence: it lands
/// after every record whose date is not later than its own.
pub open spec fn spec_insert_record(sorted: Seq<RecordV>, r: RecordV) -> Seq<RecordV>
    decreases sorted.len(),
{
    if sorted.len() == 0 {
        seq![r]
    } else if spec_lex_le(sorted.last().date, r.date) {
        sorted.push(r)
    } else {
        spec_insert_record(sorted.drop_last(), r).push(sorted.last())
    }
}

/// Stable sort of the records by date string (insertion sort).
pub open spec fn spec_sort_records(rs: Seq<RecordV>) -> Seq<RecordV>
    decreases rs.len(),
{
    if rs.len() == 0 {
        Seq::<RecordV>::empty()
    } else {
        spec_insert_record(spec_sort_records(rs.drop_last()), rs.last())
    }
}

/// Phase two: apply the sorted records in order; `None` as soon as one of
/// them leaves the exact arithmetic range.
pub open spec fn spec_replay(st: EngineStateV, recs: Seq<RecordV>) -> Option<EngineStateV>
    decreases recs.len(),
{
    if recs.len() == 0 {
        Some(st)
    } else {
        match spec_eval_record(st, recs[0]) {
            None => None,
            Some(st1) => spec_replay(st1, recs.subrange(1, recs.len() as int)),
        }
    }
}

/// The snapshot a record output contributes to the report.
pub open spec fn spec_snapshot_of(o: RecordOutputV) -> SnapshotV {
    SnapshotV {
        symbol: spec_symbol_text(spec_details_symbol(o.program.details)),
        date: o.program.date,
        statement: o.program,
        total_purchase: o.total_purchase,
        total_sale: o.total_sale,
        value: o.value,
        profit: o.profit,
    }
}

/// One output folded into the daily buckets: appended to its symbol's
/// bucket (created at the end on first sight) and there to its date's
/// group (likewise created at the end on first sight).
pub open spec fn spec_bucket_one(
    acc: Seq<(Seq<char>, Seq<DailySnapshotV>)>,
    o: RecordOutputV,
) -> Seq<(Seq<char>, Seq<DailySnapshotV>)> {
    let sym = spec_symbol_text(spec_details_symbol(o.program.details));
    let date = o.program.date;
    let snap = spec_snapshot_of(o);
    let i = spec_find_bucket(acc, sym);
    if i == -1 {
        acc.push((sym, seq![DailySnapshotV { symbol: sym, date, snapshots: seq![snap] }]))
    } else {
        let days = acc[i].1;
        let j = spec_find_date(days, date);
        if j == -1 {
            acc.update(
                i,
                (sym, days.push(DailySnapshotV { symbol: sym, date, snapshots: seq![snap] })),
            )
        } else {
            acc.update(
                i,
                (
                    sym,
                    days.update(
                        j,
                        DailySnapshotV {
                            symbol: days[j].symbol,
                            date: days[j].date,
                            snapshots: days[j].snapshots.push(snap),
                        },
                    ),
                ),
            )
        }
    }
}

/// All outputs bucketed by symbol and date, in application order.
pub open spec fn spec_bucket(outs: Seq<RecordOutputV>) -> Seq<(Seq<char>, Seq<DailySnapshotV>)>
    decreases outs.len(),
{
    if outs.len() == 0 {
        Seq::<(Seq<char>, Seq<DailySnapshotV>)>::empty()
    } else {
        spec_bucket_one(spec_bucket(outs.drop_last()), outs.last())
    }
}

/// The report a finished state yields.
pub open spec fn spec_report_of(st: EngineStateV) -> AnalysisReportV {
    AnalysisReportV {
        assets: st.assets,
        portfolios: st.portfolios,
        daily_snapshot: spec_bucket(st.record_outputs),
    }
}

/// The state after evaluating a whole program from `st0`: phase one, the
/// stable date sort, then the replay.
pub open spec fn spec_eval_state(st0: EngineStateV, prog: Seq<StatementV>) -> Option<EngineStateV> {
    let (st1, recs) = spec_phase_one(st0, prog);
    spec_replay(st1, spec_sort_records(recs))
}

/// The report of evaluating a whole program from `st0`, or `None` when the
/// exact arithmetic left range.
pub open spec fn spec_eval_program(st0: EngineStateV, prog: Seq<StatementV>) -> Option<
    AnalysisReportV,
> {
    match spec_eval_state(st0, prog) {
        None => None,
        Some(st) => Some(spec_report_of(st)),
    }
}

/// The index of the first registry entry for `sym`, or `None`.
#[verifier::loop_isolation(false)]
fn find_asset_index(assets: &Vec<Asset>, sym: &String) -> (r: Option<usize>)
    ensures
        ({
            let av = assets@.map_values(|a: Asset| a@);
            match r {
                Some(i) => i < assets@.len() && spec_find_asset(av, sym@) == i as int,
                None => spec_find_asset(av, sym@) == -1,
            }
        }),
{
    let ghost av = assets@.map_values(|a: Asset| a@);
    proof {
        lemma_find_asset_props(av, sym@);
    }
    let n = assets.len();
    let mut i: usize = 0;
    while i < n
        invariant
            i <= n,
            n == assets@.len(),
            forall|k: int| 0 <= k < i ==> (#[trigger] av[k]).symbol != sym@,
        decreases n - i,
    {
        proof {
            assert(av[i as int].symbol == assets@[i as int].symbol@);
        }
        if assets[i].symbol == *sym {
            return Some(i);
        }
        i = i + 1;
    }
    None
}

/// The index of the first latest-metric entry for `sym`, or `None`.
#[verifier::loop_isolation(false)]
fn find_latest_index(latest: &Vec<(String, AssetMetric)>, sym: &String) -> (r: Option<usize>)
    ensures
        ({
            let lv = latest@.map_values(|e: (String, AssetMetric)| (e.0@, e.1));
            match r {
                Some(i) => i < latest@.len() && spec_find_latest(lv, sym@) == i as int,
                None => spec_find_latest(lv, sym@) == -1,
            }
        }),
{
    let ghost lv = latest@.map_values(|e: (String, AssetMetric)| (e.0@, e.1));
    proof {
        lemma_find_latest_props(lv, sym@);
    }
    let n = latest.len();
    let mut i: usize = 0;
    while i < n
        invariant
            i <= n,
            n == latest@.len(),
            forall|k: int| 0 <= k < i ==> (#[trigger] lv[k]).0 != sym@,
        decreases n - i,
    {
        proof {
            assert(lv[i as int].0 == latest@[i as int].0@);
        }
        if latest[i].0 == *sym {
            return Some(i);
        }
        i = i + 1;
    }
    None
}

/// The index of the first snapshot bucket for `sym`, or `None`.
#[verifier::loop_isolation(false)]
fn find_bucket_index(buckets: &Vec<(String, Vec<DailySnapshot>)>, sym: &String) -> (r: Option<
    usize,
>)
    ensures
        ({
            let bv = buckets@.map_values(
                |e: (String, Vec<DailySnapshot>)| (e.0@, e.1@.map_values(|d: DailySnapshot| d@)),
            );
            match r {
                Some(i) => i < buckets@.len() && spec_find_bucket(bv, sym@) == i as int,
                None => spec_find_bucket(bv, sym@) == -1,
            }
        }),
{
    let ghost bv = buckets@.map_values(
        |e: (String, Vec<DailySnapshot>)| (e.0@, e.1@.map_values(|d: DailySnapshot| d@)),
    );
    proof {
        lemma_find_bucket_props(bv, sym@);
    }
    let n = buckets.len();
    let mut i: usize = 0;
    while i < n
        invariant
            i <= n,
            n == buckets@.len(),
            forall|k: int| 0 <= k < i ==> (#[trigger] bv[k]).0 != sym@,
        decreases n - i,
    {
        proof {
            assert(bv[i as int].0 == buckets@[i as int].0@);
        }
        if buckets[i].0 == *sym {
            return Some(i);
        }
        i = i + 1;
    }
    None
}

/// The index of the first daily snapshot for `date`, or `None`.
#[verifier::loop_isolation(false)]
fn find_date_index(days: &Vec<DailySnapshot>, date: &String) -> (r: Option<usize>)
    ensures
        ({
            let dv = days@.map_values(|d: DailySnapshot| d@);
            match r {
                Some(i) => i < days@.len() && spec_find_date(dv, date@) == i as int,
                None => spec_find_date(dv, date@) == -1,
            }
        }),
{
    let ghost dv = days@.map_values(|d: DailySnapshot| d@);
    proof {
        lemma_find_date_props(dv, date@);
    }
    let n = days.len();
    let mut i: usize = 0;
    while i < n
        invariant
            i <= n,
            n == days@.len(),
            forall|k: int| 0 <= k < i ==> (#[trigger] dv[k]).date != date@,
        decreases n - i,
    {
        proof {
            assert(dv[i as int].date == days@[i as int].date@);
        }
        if days[i].date == *date {
            return Some(i);
        }
        i = i + 1;
    }
    None
}

impl Snapshot {
    /// A field-by-field copy.
    pub fn duplicate(&self) -> (r: Snapshot)
        ensures
            r@ == self@,
    {
        Snapshot {
            symbol: self.symbol.clone(),
            date: self.date.clone(),
            statement: self.statement.duplicate(),
            total_purchase: self.total_purchase,
            total_sale: self.total_sale,
            value: self.value,
            profit: self.profit,
        }
    }

    /// The snapshot a record output contributes to the report.
    fn from_output(output: &RecordOutput) -> (r: Snapshot)
        ensures
            r@ == spec_snapshot_of(output@),
    {
        Snapshot {
            symbol: output.program.details.get_symbol().to_string(),
            date: output.program.date.clone(),
            statement: output.program.duplicate(),
            total_purchase: output.total_purchase,
            total_sale: output.total_sale,
            value: output.value,
            profit: output.profit,
        }
    }
}

impl DailySnapshot {
    /// A field-by-field copy.
    #[verifier::loop_isolation(false)]
    pub fn duplicate(&self) -> (r: DailySnapshot)
        ensures
            r@ == self@,
    {
        let n = self.snapshots.len();
        let mut snaps: Vec<Snapshot> = Vec::new();
        let mut i: usize = 0;
        while i < n
            invariant
                i <= n,
                n == self.snapshots@.len(),
                snaps@.map_values(|s: Snapshot| s@) =~= self.snapshots@.map_values(
                    |s: Snapshot| s@,
                ).subrange(0, i as int),
            decreases n - i,
        {
            snaps.push(self.snapshots[i].duplicate());
            i = i + 1;
            proof {
                assert(snaps@.map_values(|s: Snapshot| s@) =~= self.snapshots@.map_values(
                    |s: Snapshot| s@,
                ).subrange(0, i as int));
            }
        }
        proof {
            assert(snaps@.map_values(|s: Snapshot| s@) =~= self.snapshots@.map_values(
                |s: Snapshot| s@,
            ));
        }
        let r = DailySnapshot {
            symbol: self.symbol.clone(),
            date: self.date.clone(),
            snapshots: snaps,
        };
        proof {
            assert(r@ =~= self@);
        }
        r
    }
}

impl Asset {
    /// The registry entries copied, views preserved.
    #[verifier::loop_isolation(false)]
    fn duplicate_all(v: &Vec<Asset>) -> (r: Vec<Asset>)
        ensures
            r@.map_values(|a: Asset| a@) == v@.map_values(|a: Asset| a@),
    {
        let n = v.len();
        let mut out: Vec<Asset> = Vec::new();
        let mut i: usize = 0;
        while i < n
            invariant
                i <= n,
                n == v@.len(),
                out@.map_values(|a: Asset| a@) =~= v@.map_values(|a: Asset| a@).subrange(
                    0,
                    i as int,
                ),
            decreases n - i,
        {
            out.push(v[i].duplicate());
            i = i + 1;
            proof {
                assert(out@.map_values(|a: Asset| a@) =~= v@.map_values(|a: Asset| a@).subrange(
                    0,
                    i as int,
                ));
            }
        }
        proof {
            assert(out@.map_values(|a: Asset| a@) =~= v@.map_values(|a: Asset| a@));
        }
        out
    }
}

impl Portfolio {
    /// A field-by-field copy.
    pub fn duplicate(&self) -> (r: Portfolio)
        ensures
            r@ == self@,
    {
        let r = Portfolio {
            name: self.name.clone(),
            assets: Asset::duplicate_all(&self.assets),
            target_return: self.target_return,
        };
        proof {
            assert(r@ =~= self@);
        }
        r
    }

    /// The materialized portfolios copied, views preserved.
    #[verifier::loop_isolation(false)]
    fn duplicate_all(v: &Vec<Portfolio>) -> (r: Vec<Portfolio>)
        ensures
            r@.map_values(|p: Portfolio| p@) == v@.map_values(|p: Portfolio| p@),
    {
        let n = v.len();
        let mut out: Vec<Portfolio> = Vec::new();
        let mut i: usize = 0;
        while i < n
            invariant
                i <= n,
                n == v@.len(),
                out@.map_values(|p: Portfolio| p@) =~= v@.map_values(|p: Portfolio| p@).subrange(
                    0,
                    i as int,
                ),
            decreases n - i,
        {
            out.push(v[i].duplicate());
            i = i + 1;
            proof {
                assert(out@.map_values(|p: Portfolio| p@) =~= v@.map_values(
                    |p: Portfolio| p@,
                ).subrange(0, i as int));
            }
        }
        proof {
            assert(out@.map_values(|p: Portfolio| p@) =~= v@.map_values(|p: Portfolio| p@));
        }
        out
    }
}

/// Where a record lands when stably inserted at index `j`: after every
/// earlier-or-equal date, before every strictly later one.
proof fn lemma_insert_record_at(sorted: Seq<RecordV>, r: RecordV, j: int)
    requires
        0 <= j <= sorted.len(),
        forall|k: int| j <= k < sorted.len() ==> !spec_lex_le((#[trigger] sorted[k]).date, r.date),
        j > 0 ==> spec_lex_le(sorted[j - 1].date, r.date),
    ensures
        spec_insert_record(sorted, r) == sorted.subrange(0, j).push(r) + sorted.subrange(
            j,
            sorted.len() as int,
        ),
    decreases sorted.len(),
{
    if sorted.len() == 0 {
        assert(spec_insert_record(sorted, r) =~= sorted.subrange(0, j).push(r) + sorted.subrange(
            j,
            sorted.len() as int,
        ));
    } else if j == sorted.len() {
        assert(spec_lex_le(sorted.last().date, r.date));
        assert(spec_insert_record(sorted, r) == sorted.push(r));
        assert(sorted.subrange(0, j) =~= sorted);
        assert(sorted.subrange(j, sorted.len() as int) =~= Seq::<RecordV>::empty());
        assert(sorted.push(r) =~= sorted.subrange(0, j).push(r) + sorted.subrange(
            j,
            sorted.len() as int,
        ));
    } else {
        assert(!spec_lex_le(sorted.last().date, r.date));
        let head = sorted.drop_last();
        assert(j <= head.len());
        assert forall|k: int| j <= k < head.len() implies !spec_lex_le(
            (#[trigger] head[k]).date,
            r.date,
        ) by {
            assert(head[k] == sorted[k]);
        }
        if j > 0 {
            assert(head[j - 1] == sorted[j - 1]);
        }
        lemma_insert_record_at(head, r, j);
        assert(spec_insert_record(sorted, r) == spec_insert_record(head, r).push(sorted.last()));
        assert((head.subrange(0, j).push(r) + head.subrange(j, head.len() as int)).push(
            sorted.last(),
        ) =~= sorted.subrange(0, j).push(r) + sorted.subrange(j, sorted.len() as int));
    }
}

/// The records stably sorted by date string (insertion sort).
#[verifier::loop_isolation(false)]
fn sort_records(records: Vec<Record>) -> (r: Vec<Record>)
    ensures
        r@.map_values(|x: Record| x@) == spec_sort_records(records@.map_values(|x: Record| x@)),
{
    let ghost rv = records@.map_values(|x: Record| x@);
    let n = records.len();
    let mut sorted: Vec<Record> = Vec::new();
    let mut i: usize = 0;
    proof {
        assert(rv.subrange(0, 0) =~= Seq::<RecordV>::empty());
        assert(sorted@.map_values(|x: Record| x@) =~= Seq::<RecordV>::empty());
    }
    while i < n
        invariant
            i <= n,
            n == records@.len(),
            sorted@.map_values(|x: Record| x@) == spec_sort_records(rv.subrange(0, i as int)),
        decreases n - i,
    {
        let rec = records[i].duplicate();
        let ghost sortedv = sorted@.map_values(|x: Record| x@);
        let mut j = sorted.len();
        while j > 0 && !str_le(&sorted[j - 1].date, &rec.date)
            invariant
                j <= sorted@.len(),
                sortedv == sorted@.map_values(|x: Record| x@),
                forall|k: int| j <= k < sortedv.len() ==> !spec_lex_le(
                    (#[trigger] sortedv[k]).date,
                    rec@.date,
                ),
            decreases j,
        {
            proof {
                assert(sortedv[j - 1].date == sorted@[j - 1].date@);
            }
            j = j - 1;
        }
        proof {
            if j > 0 {
                assert(sortedv[j - 1].date == sorted@[j - 1].date@);
            }
            lemma_insert_record_at(sortedv, rec@, j as int);
        }
        sorted.insert(j, rec);
        i = i + 1;
        proof {
            assert(sorted@.map_values(|x: Record| x@) =~= sortedv.subrange(0, j as int).push(rec@)
                + sortedv.subrange(j as int, sortedv.len() as int));
            let prefix = rv.subrange(0, i as int);
            assert(prefix.drop_last() =~= rv.subrange(0, i as int - 1));
            assert(prefix.last() == rv[i as int - 1]);
            assert(rv[i as int - 1] == rec@);
            assert(spec_sort_records(prefix) == spec_insert_record(
                spec_sort_records(prefix.drop_last()),
                rec@,
            ));
        }
    }
    proof {
        assert(rv.subrange(0, n as int) =~= rv);
    }
    sorted
}

/// The view of an optional owned string.
pub open spec fn spec_opt_str(o: Option<String>) -> Option<Seq<char>> {
    match o {
        Some(s) => Some(s@),
        None => None,
    }
}

impl EngineState {
    /// Registry upsert-and-sync (see [`spec_upsert_asset`]).
    fn upsert_asset(&mut self, symbol: String, name: Option<String>, target_return: Option<
        Decimal,
    >)
        ensures
            final(self)@ == spec_upsert_asset(
                old(self)@,
                symbol@,
                spec_opt_str(name),
                target_return,
            ),
    {
        match find_asset_index(&self.assets, &symbol) {
            None => {
                let new_a = Asset::new(symbol, name, target_return);
                let copy = new_a.duplicate();
                self.assets.push(new_a);
                self.update_portfolio_assets(copy);
                proof {
                    assert(self@ =~= spec_upsert_asset(
                        old(self)@,
                        symbol@,
                        spec_opt_str(name),
                        target_return,
                    ));
                }
            },
            Some(i) => {
                let a_sym = self.assets[i].symbol.clone();
                let a_alias: Option<String> = match name {
                    Some(a) => Some(a),
                    None => match &self.assets[i].alias {
                        Some(x) => Some(x.clone()),
                        None => None,
                    },
                };
                let a_tr: Option<Decimal> = match target_return {
                    Some(t) => Some(t),
                    None => self.assets[i].target_return,
                };
                let new_a = Asset { symbol: a_sym, alias: a_alias, target_return: a_tr };
                let copy = new_a.duplicate();
                let ghost a1 = new_a@;
                self.assets.set(i, new_a);
                proof {
                    assert(self@.assets =~= old(self)@.assets.update(i as int, a1));
                }
                self.update_portfolio_assets(copy);
                proof {
                    assert(self@ =~= spec_upsert_asset(
                        old(self)@,
                        symbol@,
                        spec_opt_str(name),
                        target_return,
                    ));
                }
            },
        }
    }

    /// Replaces every portfolio's stale copy of the updated asset.
    #[verifier::loop_isolation(false)]
    fn update_portfolio_assets(&mut self, asset: Asset)
        ensures
            final(self)@ == (EngineStateV {
                portfolios: spec_sync_portfolios(old(self)@.portfolios, asset@),
                ..old(self)@
            }),
    {
        let ghost sync = spec_sync_portfolios(old(self)@.portfolios, asset@);
        let np = self.portfolios.len();
        let mut pi: usize = 0;
        while pi < np
            invariant
                pi <= np,
                np == self.portfolios@.len(),
                self.plans == old(self).plans,
                self.assets == old(self).assets,
                self.record_outputs == old(self).record_outputs,
                self.snapshots == old(self).snapshots,
                forall|k: int| 0 <= k < pi ==> self@.portfolios[k] == sync[k],
                forall|k: int| pi <= k < np ==> self.portfolios@[k] == old(self).portfolios@[k],
            decreases np - pi,
        {
            let ghost pv = old(self)@.portfolios[pi as int];
            proof {
                assert(self.portfolios@[pi as int] == old(self).portfolios@[pi as int]);
                assert(self.portfolios@[pi as int]@ == pv);
            }
            let pa_len = self.portfolios[pi].assets.len();
            let mut new_assets: Vec<Asset> = Vec::new();
            let ghost mapped = pv.assets.map_values(
                |x: AssetV|
                    if x.symbol == asset@.symbol {
                        asset@
                    } else {
                        x
                    },
            );
            let mut ai: usize = 0;
            proof {
                assert(new_assets@.map_values(|a: Asset| a@) =~= mapped.subrange(0, 0));
            }
            while ai < pa_len
                invariant
                    ai <= pa_len,
                    pi < np,
                    np == self.portfolios@.len(),
                    pa_len == self.portfolios@[pi as int].assets@.len(),
                    self.portfolios@[pi as int] == old(self).portfolios@[pi as int],
                    pv == old(self)@.portfolios[pi as int],
                    new_assets@.map_values(|a: Asset| a@) =~= mapped.subrange(0, ai as int),
                decreases pa_len - ai,
            {
                proof {
                    assert(pv.assets[ai as int] == self.portfolios@[pi as int].assets@[
                        ai as int
                    ]@);
                }
                if self.portfolios[pi].assets[ai].symbol == asset.symbol {
                    new_assets.push(asset.duplicate());
                } else {
                    new_assets.push(self.portfolios[pi].assets[ai].duplicate());
                }
                ai = ai + 1;
                proof {
                    assert(new_assets@.map_values(|a: Asset| a@) =~= mapped.subrange(
                        0,
                        ai as int,
                    ));
                }
            }
            let new_p = Portfolio {
                name: self.portfolios[pi].name.clone(),
                assets: new_assets,
                target_return: self.portfolios[pi].target_return,
            };
            proof {
                assert(mapped.subrange(0, pa_len as int) =~= mapped);
                assert(new_p@ =~= sync[pi as int]);
            }
            self.portfolios.set(pi, new_p);
            pi = pi + 1;
        }
        proof {
            assert(self@.portfolios =~= sync);
            assert(self@ =~= (EngineStateV {
                portfolios: sync,
                ..old(self)@
            }));
        }
    }

    /// Applies one record to its symbol's running metric (see
    /// [`spec_calc_record`]); on success the output is appended and the
    /// latest-metric table updated.
    fn calc_asset(&mut self, record: &Record) -> (r: Result<Output, EngineError>)
        ensures
            match r {
                Ok(out) => {
                    &&& spec_calc_record(old(self)@, record@) matches Some((st2, outv))
                    &&& final(self)@ == st2
                    &&& out matches Output::Record(ro)
                    &&& ro@ == outv
                },
                Err(_) => {
                    &&& spec_calc_record(old(self)@, record@) is None
                    &&& *final(self) == *old(self)
                },
            },
    {
        let sym_string = record.details.get_symbol().to_string();
        let li = find_latest_index(&self.snapshots, &sym_string);
        let last: AssetMetric = match li {
            Some(i) => self.snapshots[i].1,
            None => AssetMetric {
                total_purchase: Decimal::zero(),
                total_sale: Decimal::zero(),
                value: SignedDecimal::zero(),
            },
        };
        let new_metric: AssetMetric = match &record.details {
            Details::Trade(trade) => {
                let amt = trade.signed_amount.value;
                let buying = trade.buy();
                let total_purchase = if buying {
                    match dec_add(last.total_purchase, amt) {
                        Some(p) => p,
                        None => {
                            return Err(EngineError::new());
                        },
                    }
                } else {
                    last.total_purchase
                };
                let total_sale = if !buying {
                    match dec_add(last.total_sale, amt) {
                        Some(s) => s,
                        None => {
                            return Err(EngineError::new());
                        },
                    }
                } else {
                    last.total_sale
                };
                let value = match sdec_add_mag(last.value, buying, amt) {
                    Some(v) => v,
                    None => {
                        return Err(EngineError::new());
                    },
                };
                AssetMetric { total_purchase, total_sale, value }
            },
            Details::Mark(mark) => {
                let v = match dec_to_signed(mark.value) {
                    Some(v) => v,
                    None => {
                        return Err(EngineError::new());
                    },
                };
                AssetMetric {
                    total_purchase: last.total_purchase,
                    total_sale: last.total_sale,
                    value: v,
                }
            },
        };
        let profit = match new_metric.get_profit() {
            Some(p) => p,
            None => {
                return Err(EngineError::new());
            },
        };
        let output = RecordOutput {
            program: record.duplicate(),
            total_purchase: new_metric.total_purchase,
            total_sale: new_metric.total_sale,
            value: new_metric.value,
            profit,
        };
        let ret = output.duplicate();
        self.record_outputs.push(output);
        match li {
            Some(i) => {
                self.snapshots.set(i, (sym_string, new_metric));
            },
            None => {
                self.snapshots.push((sym_string, new_metric));
            },
        }
        proof {
            match spec_calc_record(old(self)@, record@) {
                Some(pr) => {
                    assert(self@ =~= pr.0);
                },
                None => {},
            }
        }
        Ok(Output::Record(ret))
    }

    /// Materializes one portfolio statement against the current registry.
    #[verifier::loop_isolation(false)]
    fn update_portfolio(&mut self, statement: &PortfolioStatement) -> (r: Result<(), EngineError>)
        ensures
            r is Ok,
            final(self)@ == spec_eval_portfolio(old(self)@, statement@),
    {
        let ghost target = spec_eval_portfolio(old(self)@, statement@);
        let ghost resolved_spec = target.portfolios.last().assets;
        let na = statement.assets.len();
        let mut resolved: Vec<Asset> = Vec::new();
        let mut i: usize = 0;
        proof {
            assert(resolved@.map_values(|a: Asset| a@) =~= resolved_spec.subrange(0, 0));
        }
        while i < na
            invariant
                i <= na,
                na == statement.assets@.len(),
                self.plans == old(self).plans,
                self.assets == old(self).assets,
                self.portfolios == old(self).portfolios,
                self.record_outputs == old(self).record_outputs,
                self.snapshots == old(self).snapshots,
                resolved@.map_values(|a: Asset| a@) =~= resolved_spec.subrange(0, i as int),
            decreases na - i,
        {
            proof {
                assert(statement@.assets[i as int] == statement.assets@[i as int]@);
            }
            let text = statement.assets[i].to_string();
            match find_asset_index(&self.assets, &text) {
                None => {
                    resolved.push(Asset::new(text, None, None));
                },
                Some(j) => {
                    resolved.push(self.assets[j].duplicate());
                },
            }
            i = i + 1;
            proof {
                assert(resolved@.map_values(|a: Asset| a@) =~= resolved_spec.subrange(
                    0,
                    i as int,
                ));
            }
        }
        let tr = match statement.target_return {
            Some(t) => t,
            None => Decimal::zero(),
        };
        let p = Portfolio { name: statement.name.clone(), assets: resolved, target_return: tr };
        proof {
            assert(resolved_spec.subrange(0, na as int) =~= resolved_spec);
            assert(p@ =~= target.portfolios.last());
        }
        self.portfolios.push(p);
        proof {
            assert(self@ =~= target);
        }
        Ok(())
    }
}

/// The evaluation engine; one instance owns the working state for the
/// lifetime of an evaluation.
pub struct Engine {
    pub state: EngineState,
}

impl View for Engine {
    type V = EngineStateV;

    open spec fn view(&self) -> EngineStateV {
        self.state@
    }
}

impl Engine {
    /// A fresh engine with empty state.
    pub fn new() -> (r: Engine)
        ensures
            r@ == spec_state_empty(),
    {
        let e = Engine {
            state: EngineState {
                portfolios: Vec::new(),
                plans: Vec::new(),
                assets: Vec::new(),
                record_outputs: Vec::new(),
                snapshots: Vec::new(),
            },
        };
        proof {
            assert(e@ =~= spec_state_empty());
        }
        e
    }

    /// Evaluates one record: registry upsert, then metric application.
    fn evaluate_record(&mut self, record: &Record) -> (r: Result<Output, EngineError>)
        ensures
            match r {
                Ok(_) => spec_eval_record(old(self)@, record@) matches Some(st2) && final(self)@
                    == st2,
                Err(_) => spec_eval_record(old(self)@, record@) is None,
            },
    {
        let symbol = record.details.get_symbol().to_string();
        self.state.upsert_asset(symbol, None, None);
        let output = match self.state.calc_asset(record) {
            Ok(o) => o,
            Err(e) => {
                return Err(e);
            },
        };
        Ok(output)
    }

    /// Evaluates a define statement: a registry upsert with its fields.
    fn evaluate_define(&mut self, define: &Define) -> (r: Result<(), EngineError>)
        ensures
            r is Ok,
            final(self)@ == spec_eval_define(old(self)@, define@),
    {
        let alias: Option<String> = match &define.alias {
            Some(a) => Some(a.clone()),
            None => None,
        };
        self.state.upsert_asset(define.symbol.to_string(), alias, define.target_return);
        Ok(())
    }

    /// Evaluates a portfolio statement: materializes it.
    fn evaluate_portfolio(&mut self, statement: &PortfolioStatement) -> (r: Result<
        (),
        EngineError,
    >)
        ensures
            r is Ok,
            final(self)@ == spec_eval_portfolio(old(self)@, statement@),
    {
        self.state.update_portfolio(statement)
    }

    /// Evaluates a whole program: defines and portfolios first (in program
    /// order), then the records in stable date order, then the report.
    /// Fails exactly when the exact decimal arithmetic leaves the range of
    /// its machine integers during the replay.
    #[verifier::loop_isolation(false)]
    pub fn evaluate(&mut self, program: Program) -> (r: Result<AnalysisReport, EngineError>)
        ensures
            match r {
                Ok(rep) => spec_eval_state(old(self)@, program@) matches Some(st2) && final(self)@
                    == st2 && rep@ == spec_report_of(st2),
                Err(_) => spec_eval_state(old(self)@, program@) is None,
            },
    {
        let ghost st0 = old(self)@;
        let ghost progv = program@;
        let mut record_statements: Vec<Record> = Vec::new();
        let n = program.statements.len();
        let mut i: usize = 0;
        proof {
            assert(progv.subrange(0, 0) =~= Seq::<StatementV>::empty());
            assert(record_statements@.map_values(|x: Record| x@) =~= Seq::<RecordV>::empty());
        }
        while i < n
            invariant
                i <= n,
                n == program.statements@.len(),
                progv == program@,
                ({
                    let (st1, recs) = spec_phase_one(st0, progv.subrange(0, i as int));
                    self@ == st1 && record_statements@.map_values(|x: Record| x@) == recs
                }),
            decreases n - i,
        {
            proof {
                let pre = progv.subrange(0, i as int);
                let next = progv.subrange(0, i as int + 1);
                assert(next.drop_last() =~= pre);
                assert(next.last() == progv[i as int]);
                assert(progv[i as int] == program.statements@[i as int]@);
            }
            let ghost recs_pre = record_statements@;
            match &program.statements[i] {
                Statement::Record(rec) => {
                    record_statements.push(rec.duplicate());
                    proof {
                        assert(record_statements@.map_values(|x: Record| x@) =~= recs_pre
                            .map_values(|x: Record| x@).push(rec@));
                    }
                },
                Statement::Plan(_) => {},
                Statement::Define(d) => {
                    match self.evaluate_define(d) {
                        Ok(()) => {},
                        Err(e) => {
                            return Err(e);
                        },
                    }
                },
                Statement::Portfolio(p) => {
                    match self.evaluate_portfolio(p) {
                        Ok(()) => {},
                        Err(e) => {
                            return Err(e);
                        },
                    }
                },
            }
            i = i + 1;
        }
        proof {
            assert(progv.subrange(0, n as int) =~= progv);
        }
        let ghost recsv = record_statements@.map_values(|x: Record| x@);
        let sorted = sort_records(record_statements);
        let ghost st1 = self@;
        let ghost sortedv = sorted@.map_values(|x: Record| x@);
        let m = sorted.len();
        let mut j: usize = 0;
        proof {
            assert(sortedv.subrange(0, m as int) =~= sortedv);
        }
        while j < m
            invariant
                j <= m,
                m == sorted@.len(),
                sortedv == sorted@.map_values(|x: Record| x@),
                spec_replay(self@, sortedv.subrange(j as int, m as int)) == spec_replay(
                    st1,
                    sortedv,
                ),
            decreases m - j,
        {
            let ghost pre = self@;
            let ghost suffix = sortedv.subrange(j as int, m as int);
            proof {
                assert(suffix[0] == sortedv[j as int]);
                assert(sortedv[j as int] == sorted@[j as int]@);
                assert(suffix.subrange(1, suffix.len() as int) =~= sortedv.subrange(
                    j as int + 1,
                    m as int,
                ));
            }
            match self.evaluate_record(&sorted[j]) {
                Ok(_) => {},
                Err(e) => {
                    return Err(e);
                },
            }
            j = j + 1;
        }
        proof {
            assert(sortedv.subrange(m as int, m as int) =~= Seq::<RecordV>::empty());
            assert(spec_replay(self@, Seq::<RecordV>::empty()) == Some(self@));
        }
        // Build the report: registry, daily buckets, portfolios.
        let mut result = AnalysisReport::new();
        result.assets = Asset::duplicate_all(&self.state.assets);
        result.daily_snapshot = build_daily(&self.state.record_outputs);
        result.portfolios = Portfolio::duplicate_all(&self.state.portfolios);
        proof {
            assert(result@ =~= spec_report_of(self@));
        }
        Ok(result)
    }
}

/// The daily snapshots copied, views preserved.
#[verifier::loop_isolation(false)]
fn dup_days(v: &Vec<DailySnapshot>) -> (r: Vec<DailySnapshot>)
    ensures
        r@.map_values(|d: DailySnapshot| d@) == v@.map_values(|d: DailySnapshot| d@),
{
    let n = v.len();
    let mut out: Vec<DailySnapshot> = Vec::new();
    let mut i: usize = 0;
    while i < n
        invariant
            i <= n,
            n == v@.len(),
            out@.map_values(|d: DailySnapshot| d@) =~= v@.map_values(
                |d: DailySnapshot| d@,
            ).subrange(0, i as int),
        decreases n - i,
    {
        out.push(v[i].duplicate());
        i = i + 1;
        proof {
            assert(out@.map_values(|d: DailySnapshot| d@) =~= v@.map_values(
                |d: DailySnapshot| d@,
            ).subrange(0, i as int));
        }
    }
    proof {
        assert(out@.map_values(|d: DailySnapshot| d@) =~= v@.map_values(|d: DailySnapshot| d@));
    }
    out
}

/// The outputs bucketed by symbol and date, in application order (see
/// [`spec_bucket`]).
#[verifier::loop_isolation(false)]
fn build_daily(outputs: &Vec<RecordOutput>) -> (r: Vec<(String, Vec<DailySnapshot>)>)
    ensures
        r@.map_values(
            |e: (String, Vec<DailySnapshot>)| (e.0@, e.1@.map_values(|d: DailySnapshot| d@)),
        ) == spec_bucket(outputs@.map_values(|o: RecordOutput| o@)),
{
    let ghost outsv = outputs@.map_values(|o: RecordOutput| o@);
    let ghost view_of = |e: (String, Vec<DailySnapshot>)|
        (e.0@, e.1@.map_values(|d: DailySnapshot| d@));
    let no = outputs.len();
    let mut result: Vec<(String, Vec<DailySnapshot>)> = Vec::new();
    let mut k: usize = 0;
    proof {
        assert(outsv.subrange(0, 0) =~= Seq::<RecordOutputV>::empty());
        assert(result@.map_values(view_of) =~= spec_bucket(outsv.subrange(0, 0)));
    }
    while k < no
        invariant
            k <= no,
            no == outputs@.len(),
            outsv == outputs@.map_values(|o: RecordOutput| o@),
            view_of == (|e: (String, Vec<DailySnapshot>)|
                (e.0@, e.1@.map_values(|d: DailySnapshot| d@))),
            result@.map_values(view_of) == spec_bucket(outsv.subrange(0, k as int)),
        decreases no - k,
    {
        proof {
            let pre = outsv.subrange(0, k as int);
            let next = outsv.subrange(0, k as int + 1);
            assert(next.drop_last() =~= pre);
            assert(next.last() == outsv[k as int]);
            assert(outsv[k as int] == outputs@[k as int]@);
        }
        let ghost acc = result@.map_values(view_of);
        let ghost ov = outsv[k as int];
        let ghost symv = spec_symbol_text(spec_details_symbol(ov.program.details));
        let ghost datev = ov.program.date;
        let ghost snapv = spec_snapshot_of(ov);
        let snap = Snapshot::from_output(&outputs[k]);
        let sym = outputs[k].program.details.get_symbol().to_string();
        let date = outputs[k].program.date.clone();
        proof {
            assert(sym@ == symv);
            assert(date@ == datev);
            assert(snap@ == snapv);
        }
        match find_bucket_index(&result, &sym) {
            None => {
                let day = DailySnapshot { symbol: sym.clone(), date, snapshots: vec![snap] };
                proof {
                    assert(day@.snapshots =~= seq![snapv]);
                    assert(day@ =~~= (DailySnapshotV { symbol: symv, date: datev, snapshots: seq![snapv] }));
                }
                result.push((sym, vec![day]));
                proof {
                    assert(result@.map_values(view_of) =~~= acc.push(
                        (
                            symv,
                            seq![DailySnapshotV { symbol: symv, date: datev, snapshots: seq![snapv] }],
                        ),
                    ));
                    assert(result@.map_values(view_of) =~~= spec_bucket_one(acc, ov));
                }
            },
            Some(bi) => {
                proof {
                    let bv = result@.map_values(
                        |e: (String, Vec<DailySnapshot>)|
                            (e.0@, e.1@.map_values(|d: DailySnapshot| d@)),
                    );
                    assert(bv =~= acc);
                    lemma_find_bucket_props(acc, symv);
                    assert(acc[bi as int].1 == result@[bi as int].1@.map_values(
                        |d: DailySnapshot| d@,
                    ));
                }
                let ghost days_spec = acc[bi as int].1;
                let entry_key = result[bi].0.clone();
                proof {
                    assert(entry_key@ == acc[bi as int].0);
                    assert(acc[bi as int].0 == symv);
                }
                match find_date_index(&result[bi].1, &date) {
                    None => {
                        let mut days = dup_days(&result[bi].1);
                        let day = DailySnapshot { symbol: sym, date, snapshots: vec![snap] };
                        proof {
                            assert(day@.snapshots =~= seq![snapv]);
                            assert(day@ =~~= (DailySnapshotV {
                                symbol: symv,
                                date: datev,
                                snapshots: seq![snapv],
                            }));
                        }
                        days.push(day);
                        proof {
                            assert(days@.map_values(|d: DailySnapshot| d@) =~~= days_spec.push(
                                DailySnapshotV { symbol: symv, date: datev, snapshots: seq![snapv] },
                            ));
                        }
                        result.set(bi, (entry_key, days));
                        proof {
                            assert(result@.map_values(view_of) =~~= acc.update(
                                bi as int,
                                (
                                    symv,
                                    days_spec.push(
                                        DailySnapshotV {
                                            symbol: symv,
                                            date: datev,
                                            snapshots: seq![snapv],
                                        },
                                    ),
                                ),
                            ));
                            assert(result@.map_values(view_of) =~~= spec_bucket_one(acc, ov));
                        }
                    },
                    Some(di) => {
                        let mut days = dup_days(&result[bi].1);
                        let mut day = days[di].duplicate();
                        proof {
                            assert(days@.map_values(|d: DailySnapshot| d@) =~~= days_spec);
                            assert(day@ == days_spec[di as int]);
                        }
                        day.snapshots.push(snap);
                        proof {
                            assert(day@ =~~= (DailySnapshotV {
                                symbol: days_spec[di as int].symbol,
                                date: days_spec[di as int].date,
                                snapshots: days_spec[di as int].snapshots.push(snapv),
                            }));
                        }
                        days.set(di, day);
                        result.set(bi, (entry_key, days));
                        proof {
                            assert(result@.map_values(view_of) =~~= acc.update(
                                bi as int,
                                (
                                    symv,
                                    days_spec.update(
                                        di as int,
                                        DailySnapshotV {
                                            symbol: days_spec[di as int].symbol,
                                            date: days_spec[di as int].date,
                                            snapshots: days_spec[di as int].snapshots.push(snapv),
                                        },
                                    ),
                                ),
                            ));
                            assert(result@.map_values(view_of) =~~= spec_bucket_one(acc, ov));
                        }
                    },
                }
            },
        }
        k = k + 1;
    }
    proof {
        assert(outsv.subrange(0, no as int) =~= outsv);
    }
    result
}

} // verus!
