//! The library's headline guarantees, stated and proved once over the
//! specification functions that the executable pipeline is verified
//! against: the lexical shape laws (dates and symbols), the symbol
//! display/lexical round trip, evaluation determinism, the stability and
//! order of the chronological sort and of the report's daily grouping,
//! and the accumulation and overwrite rules of the metric replay.

use vstd::prelude::*;
use crate::decimal::{
    Decimal, SignedDecimal, pow10, spec_dec_add, spec_dec_at, spec_dec_to_signed, spec_max_scale,
    spec_profit, spec_sdec_add_mag, spec_sdec_at,
};
use crate::dsl::ast::{DetailsV, MarkDetailsV, Sign, StatementV, SymbolV, spec_details_symbol, spec_symbol_text};
use crate::dsl::lexer::{
    lemma_skip_ws_bounds, spec_digit_end, spec_ident_end, spec_is_digit, spec_is_ident_char,
    spec_is_ident_start, spec_scan_token, spec_tokenize,
};
use crate::dsl::token::TokenV;
use crate::evaluator::engine::{
    AnalysisReportV, AssetMetric, DailySnapshotV, EngineStateV, SnapshotV,
    lemma_find_bucket_props, lemma_find_date_props, lemma_find_latest_props, spec_apply_details,
    spec_bucket, spec_bucket_one, spec_calc_record, spec_eval_program, spec_eval_record,
    spec_eval_state, spec_find_bucket, spec_find_date, spec_find_latest, spec_insert_record,
    spec_metric_zero, spec_phase_one, spec_replay, spec_report_of, spec_snapshot_of,
    spec_sort_records, spec_state_empty, spec_upsert_asset,
};
use crate::evaluator::output::RecordOutputV;
use crate::dsl::ast::RecordV;
use crate::text::{lemma_lex_le_total, lemma_lex_le_trans, spec_lex_le};
use vstd::arithmetic::mul::{
    lemma_mul_is_associative, lemma_mul_is_commutative, lemma_mul_is_distributive_add_other_way,
    lemma_mul_is_distributive_sub_other_way,
};

verus! {

/// The first non-digit position is `j` exactly when digits fill `[i, j)`
/// and `j` sits at the end of input or at a non-digit.
proof fn lemma_digit_end_exact(s: Seq<char>, i: nat, j: nat)
    requires
        i <= j <= s.len(),
        forall|k: int| i <= k < j ==> spec_is_digit(#[trigger] s[k]),
        j == s.len() || !spec_is_digit(s[j as int]),
    ensures
        spec_digit_end(s, i) == j,
    decreases j - i,
{
    if i < j {
        lemma_digit_end_exact(s, i + 1, j);
    }
}

/// The first non-identifier position is `j` exactly when identifier
/// characters fill `[i, j)` and `j` sits at the end of input or at a
/// non-identifier character.
proof fn lemma_ident_end_exact(s: Seq<char>, i: nat, j: nat)
    requires
        i <= j <= s.len(),
        forall|k: int| i <= k < j ==> spec_is_ident_char(#[trigger] s[k]),
        j == s.len() || !spec_is_ident_char(s[j as int]),
    ensures
        spec_ident_end(s, i) == j,
    decreases j - i,
{
    if i < j {
        lemma_ident_end_exact(s, i + 1, j);
    }
}

/// Every valid date-shaped literal `DDDD-DD-DD` lexes to a `Date` token
/// carrying exactly those ten characters — never to a `Number` — provided
/// no further digit follows (which would break the day group's width).
pub proof fn lemma_date_shape_lexes_to_date(s: Seq<char>, i: nat)
    requires
        i + 10 <= s.len(),
        forall|k: int| i <= k < i + 4 ==> spec_is_digit(#[trigger] s[k]),
        s[i as int + 4] == '-',
        forall|k: int| i + 5 <= k < i + 7 ==> spec_is_digit(#[trigger] s[k]),
        s[i as int + 7] == '-',
        forall|k: int| i + 8 <= k < i + 10 ==> spec_is_digit(#[trigger] s[k]),
        i + 10 == s.len() || !spec_is_digit(s[i as int + 10]),
    ensures
        spec_scan_token(s, i) == Ok::<(TokenV, nat), nat>(
            (TokenV::Date(s.subrange(i as int, i as int + 10)), (i + 10) as nat),
        ),
{
    assert(spec_is_digit(s[i as int]));
    lemma_digit_end_exact(s, i, (i + 4) as nat);
    lemma_digit_end_exact(s, (i + 5) as nat, (i + 7) as nat);
    lemma_digit_end_exact(s, (i + 8) as nat, (i + 10) as nat);
}

/// Every `NAME1:NAME2` with a well-formed first segment and a non-empty
/// identifier second segment lexes to a `Symbol` token carrying exactly
/// the two segments, in original case.
pub proof fn lemma_symbol_shape_lexes_to_symbol(s: Seq<char>, i: nat, e: nat, n2: nat)
    requires
        i < e < s.len(),
        spec_is_ident_start(s[i as int]),
        forall|k: int| i <= k < e ==> spec_is_ident_char(#[trigger] s[k]),
        s[e as int] == ':',
        e + 1 < n2 <= s.len(),
        forall|k: int| e + 1 <= k < n2 ==> spec_is_ident_char(#[trigger] s[k]),
        n2 == s.len() || !spec_is_ident_char(s[n2 as int]),
    ensures
        spec_scan_token(s, i) == Ok::<(TokenV, nat), nat>(
            (
                TokenV::Symbol(
                    s.subrange(i as int, e as int),
                    s.subrange(e as int + 1, n2 as int),
                ),
                n2,
            ),
        ),
{
    lemma_ident_end_exact(s, i, e);
    lemma_ident_end_exact(s, (e + 1) as nat, n2);
}

/// A trailing bare colon — `NAME1:` followed by no identifier character —
/// is a lexical error, reported just past the colon.
pub proof fn lemma_symbol_missing_name_is_error(s: Seq<char>, i: nat, e: nat)
    requires
        i < e < s.len(),
        spec_is_ident_start(s[i as int]),
        forall|k: int| i <= k < e ==> spec_is_ident_char(#[trigger] s[k]),
        s[e as int] == ':',
        e + 1 == s.len() || !spec_is_ident_char(s[e as int + 1]),
    ensures
        spec_scan_token(s, i) == Err::<(TokenV, nat), nat>((e + 1) as nat),
{
    lemma_ident_end_exact(s, i, e);
    lemma_ident_end_exact(s, (e + 1) as nat, (e + 1) as nat);
}

/// The canonical textual form `namespace:name` of a symbol lexes back to
/// exactly that symbol token (and the end-of-input marker): the display
/// form and the lexical form agree.
pub proof fn lemma_symbol_text_round_trip(ns: Seq<char>, name: Seq<char>)
    requires
        ns.len() > 0,
        spec_is_ident_start(ns[0]),
        forall|k: int| 0 <= k < ns.len() ==> spec_is_ident_char(#[trigger] ns[k]),
        name.len() > 0,
        forall|k: int| 0 <= k < name.len() ==> spec_is_ident_char(#[trigger] name[k]),
    ensures
        spec_tokenize(spec_symbol_text(SymbolV { namespace: ns, name }), 0) == Ok::<
            Seq<TokenV>,
            nat,
        >(seq![TokenV::Symbol(ns, name), TokenV::Eof]),
{
    let text = spec_symbol_text(SymbolV { namespace: ns, name });
    let e = ns.len();
    let n2 = text.len();
    assert(text.len() == ns.len() + 1 + name.len());
    assert forall|k: int| 0 <= k < e implies spec_is_ident_char(#[trigger] text[k]) by {
        assert(text[k] == ns[k]);
    }
    assert(text[e as int] == ':');
    assert forall|k: int| e + 1 <= k < n2 implies spec_is_ident_char(#[trigger] text[k]) by {
        assert(text[k] == name[k - e - 1]);
    }
    assert(text[0] == ns[0]);
    lemma_symbol_shape_lexes_to_symbol(text, 0, e, n2);
    assert(text.subrange(0, e as int) =~= ns);
    assert(text.subrange(e as int + 1, n2 as int) =~= name);
    lemma_skip_ws_bounds(text, 0);
    assert(spec_tokenize(text, n2) == Ok::<Seq<TokenV>, nat>(seq![TokenV::Eof]));
    assert(seq![TokenV::Symbol(ns, name)] + seq![TokenV::Eof] =~= seq![
        TokenV::Symbol(ns, name),
        TokenV::Eof,
    ]);
}

/// Evaluation is deterministic: any two successful evaluations of the same
/// program from the same starting state yield identical reports. Together
/// with `Engine::evaluate`'s contract — its result is exactly
/// `spec_eval_program` of its inputs — this is the idempotence of
/// evaluating one program with a fresh engine each time.
pub proof fn lemma_evaluation_deterministic(
    st0: EngineStateV,
    prog: Seq<StatementV>,
    r1: AnalysisReportV,
    r2: AnalysisReportV,
)
    requires
        spec_eval_program(st0, prog) == Some(r1),
        spec_eval_program(st0, prog) == Some(r2),
    ensures
        r1 == r2,
{
}

/// The lexicographic order is reflexive.
proof fn lemma_lex_le_refl(a: Seq<char>)
    ensures
        spec_lex_le(a, a),
    decreases a.len(),
{
    if a.len() > 0 {
        lemma_lex_le_refl(a.subrange(1, a.len() as int));
    }
}

/// Whether a record sequence is sorted by (lexicographic) date.
pub open spec fn spec_sorted_by_date(rs: Seq<RecordV>) -> bool {
    forall|a: int, b: int|
        0 <= a < b < rs.len() ==> spec_lex_le((#[trigger] rs[a]).date, (#[trigger] rs[b]).date)
}

/// The position at which stable insertion places a record.
spec fn spec_insert_pos(sorted: Seq<RecordV>, r: RecordV) -> int
    decreases sorted.len(),
{
    if sorted.len() == 0 {
        0
    } else if spec_lex_le(sorted.last().date, r.date) {
        sorted.len() as int
    } else {
        spec_insert_pos(sorted.drop_last(), r)
    }
}

/// Stable insertion is insertion at [`spec_insert_pos`]: everything from
/// the position on has a strictly later date, everything before it a date
/// no later than the record's.
proof fn lemma_insert_pos_props(sorted: Seq<RecordV>, r: RecordV)
    ensures
        ({
            let j = spec_insert_pos(sorted, r);
            &&& 0 <= j <= sorted.len()
            &&& forall|k: int| j <= k < sorted.len() ==> !spec_lex_le(
                (#[trigger] sorted[k]).date,
                r.date,
            )
            &&& (j > 0 ==> spec_lex_le(sorted[j - 1].date, r.date))
            &&& spec_insert_record(sorted, r) == sorted.subrange(0, j).push(r) + sorted.subrange(
                j,
                sorted.len() as int,
            )
        }),
    decreases sorted.len(),
{
    let j = spec_insert_pos(sorted, r);
    if sorted.len() == 0 {
        assert(spec_insert_record(sorted, r) =~= sorted.subrange(0, j).push(r) + sorted.subrange(
            j,
            sorted.len() as int,
        ));
    } else if spec_lex_le(sorted.last().date, r.date) {
        assert(spec_insert_record(sorted, r) == sorted.push(r));
        assert(sorted.subrange(0, j) =~= sorted);
        assert(sorted.push(r) =~= sorted.subrange(0, j).push(r) + sorted.subrange(
            j,
            sorted.len() as int,
        ));
    } else {
        let head = sorted.drop_last();
        lemma_insert_pos_props(head, r);
        assert(j == spec_insert_pos(head, r));
        assert forall|k: int| j <= k < sorted.len() implies !spec_lex_le(
            (#[trigger] sorted[k]).date,
            r.date,
        ) by {
            if k < sorted.len() - 1 {
                assert(sorted[k] == head[k]);
            }
        }
        if j > 0 {
            assert(sorted[j - 1] == head[j - 1]);
        }
        assert(spec_insert_record(sorted, r) == spec_insert_record(head, r).push(sorted.last()));
        assert((head.subrange(0, j).push(r) + head.subrange(j, head.len() as int)).push(
            sorted.last(),
        ) =~= sorted.subrange(0, j).push(r) + sorted.subrange(j, sorted.len() as int));
    }
}

/// Stable insertion into a date-sorted sequence keeps it date-sorted.
proof fn lemma_insert_record_sorted(sorted: Seq<RecordV>, r: RecordV)
    requires
        spec_sorted_by_date(sorted),
    ensures
        spec_sorted_by_date(spec_insert_record(sorted, r)),
{
    lemma_insert_pos_props(sorted, r);
    let j = spec_insert_pos(sorted, r);
    let out = spec_insert_record(sorted, r);
    assert(out.len() == sorted.len() + 1);
    assert forall|a: int, b: int| 0 <= a < b < out.len() implies spec_lex_le(
        (#[trigger] out[a]).date,
        (#[trigger] out[b]).date,
    ) by {
        let oa = if a < j {
            sorted[a]
        } else if a == j {
            r
        } else {
            sorted[a - 1]
        };
        let ob = if b < j {
            sorted[b]
        } else if b == j {
            r
        } else {
            sorted[b - 1]
        };
        assert(out[a] == oa);
        assert(out[b] == ob);
        if a == j {
            // oa == r, b > j: date at b - 1 is strictly later than r's
            lemma_lex_le_total(r.date, sorted[b - 1].date);
        } else if b == j {
            // ob == r, a < j: dates before j are no later than r's
            if a < j - 1 {
                lemma_lex_le_trans(sorted[a].date, sorted[j - 1].date, r.date);
            }
        } else if a < j && b > j {
            if a < j - 1 {
                lemma_lex_le_trans(sorted[a].date, sorted[j - 1].date, r.date);
            }
            lemma_lex_le_total(r.date, sorted[b - 1].date);
            lemma_lex_le_trans(sorted[a].date, r.date, sorted[b - 1].date);
        }
    }
}

/// The stable date sort sorts: its result is ordered by ascending date.
pub proof fn lemma_sort_records_sorted(rs: Seq<RecordV>)
    ensures
        spec_sorted_by_date(spec_sort_records(rs)),
    decreases rs.len(),
{
    if rs.len() > 0 {
        lemma_sort_records_sorted(rs.drop_last());
        lemma_insert_record_sorted(spec_sort_records(rs.drop_last()), rs.last());
    }
}

/// Stable insertion keeps the relative order of records sharing any given
/// date: filtering by that date commutes with the insertion.
proof fn lemma_insert_record_filter(sorted: Seq<RecordV>, r: RecordV, d: Seq<char>)
    ensures
        ({
            let pred = |x: RecordV| x.date == d;
            spec_insert_record(sorted, r).filter(pred) == if r.date == d {
                sorted.filter(pred).push(r)
            } else {
                sorted.filter(pred)
            }
        }),
    decreases sorted.len(),
{
    reveal(Seq::filter);
    let pred = |x: RecordV| x.date == d;
    if sorted.len() == 0 {
        let out = spec_insert_record(sorted, r);
        assert(out =~= seq![r]);
        assert(out.drop_last() =~= Seq::<RecordV>::empty());
        assert(sorted.filter(pred) =~= Seq::<RecordV>::empty());
        if r.date == d {
            assert(out.filter(pred) =~= sorted.filter(pred).push(r));
        } else {
            assert(out.filter(pred) =~= sorted.filter(pred));
        }
    } else if spec_lex_le(sorted.last().date, r.date) {
        let out = sorted.push(r);
        assert(out.drop_last() =~= sorted);
        assert(out.last() == r);
    } else {
        let head = sorted.drop_last();
        let last = sorted.last();
        lemma_insert_record_filter(head, r, d);
        let inner = spec_insert_record(head, r);
        let out = inner.push(last);
        assert(spec_insert_record(sorted, r) == out);
        assert(out.drop_last() =~= inner);
        assert(out.last() == last);
        if r.date == d {
            // r's date equals d, yet the last record's date is strictly
            // later than r's, so the last record does not carry date d.
            lemma_lex_le_refl(r.date);
            assert(last.date != d);
            assert(out.filter(pred) == inner.filter(pred));
            assert(inner.filter(pred) == head.filter(pred).push(r));
            if pred(last) {
                assert(false);
            }
            assert(sorted.filter(pred) == head.filter(pred));
        }
    }
}

/// The records of `rs` carrying date `d`, in order.
pub open spec fn spec_same_date_records(rs: Seq<RecordV>, d: Seq<char>) -> Seq<RecordV> {
    rs.filter(|x: RecordV| x.date == d)
}

/// The stable date sort is stable: for every date, the subsequence of
/// records carrying that date is exactly the same, in the same order, as
/// in the input.
pub proof fn lemma_sort_records_stable(rs: Seq<RecordV>, d: Seq<char>)
    ensures
        ({
            let pred = |x: RecordV| x.date == d;
            spec_sort_records(rs).filter(pred) == rs.filter(pred)
        }),
    decreases rs.len(),
{
    reveal(Seq::filter);
    let pred = |x: RecordV| x.date == d;
    if rs.len() > 0 {
        lemma_sort_records_stable(rs.drop_last(), d);
        lemma_insert_record_filter(spec_sort_records(rs.drop_last()), rs.last(), d);
    }
}

/// Applying a sequence of details in order, left to right.
pub open spec fn spec_apply_all(m: AssetMetric, ds: Seq<DetailsV>) -> Option<AssetMetric>
    decreases ds.len(),
{
    if ds.len() == 0 {
        Some(m)
    } else {
        match spec_apply_all(m, ds.drop_last()) {
            None => None,
            Some(m1) => spec_apply_details(m1, ds.last()),
        }
    }
}

/// The running purchase total folded on its own: each buy adds its
/// amount, everything else leaves it unchanged.
pub open spec fn spec_fold_purchase(p: Decimal, ds: Seq<DetailsV>) -> Option<Decimal>
    decreases ds.len(),
{
    if ds.len() == 0 {
        Some(p)
    } else {
        match spec_fold_purchase(p, ds.drop_last()) {
            None => None,
            Some(p1) => match ds.last() {
                DetailsV::Trade(t) => {
                    if t.signed_amount.sign == Sign::Positive {
                        spec_dec_add(p1, t.signed_amount.value)
                    } else {
                        Some(p1)
                    }
                },
                DetailsV::Mark(_) => Some(p1),
            },
        }
    }
}

/// The running sale total folded on its own: each sell adds its
/// magnitude, everything else leaves it unchanged.
pub open spec fn spec_fold_sale(s: Decimal, ds: Seq<DetailsV>) -> Option<Decimal>
    decreases ds.len(),
{
    if ds.len() == 0 {
        Some(s)
    } else {
        match spec_fold_sale(s, ds.drop_last()) {
            None => None,
            Some(s1) => match ds.last() {
                DetailsV::Trade(t) => {
                    if t.signed_amount.sign == Sign::Negative {
                        spec_dec_add(s1, t.signed_amount.value)
                    } else {
                        Some(s1)
                    }
                },
                DetailsV::Mark(_) => Some(s1),
            },
        }
    }
}

/// The running value folded on its own: each trade adds its signed
/// amount (marks are outside this law's scope).
pub open spec fn spec_fold_value(v: SignedDecimal, ds: Seq<DetailsV>) -> Option<SignedDecimal>
    decreases ds.len(),
{
    if ds.len() == 0 {
        Some(v)
    } else {
        match spec_fold_value(v, ds.drop_last()) {
            None => None,
            Some(v1) => match ds.last() {
                DetailsV::Trade(t) => spec_sdec_add_mag(
                    v1,
                    t.signed_amount.sign == Sign::Positive,
                    t.signed_amount.value,
                ),
                DetailsV::Mark(_) => Some(v1),
            },
        }
    }
}

/// The accumulation law: over trade records only, the three running
/// totals evolve independently — the purchase total is the sum of the
/// positive amounts, the sale total the sum of the negative magnitudes,
/// and the value the signed sum of all amounts, each folded exactly from
/// its starting point (and the whole application fails exactly when one
/// of the three exact folds leaves range).
pub proof fn lemma_trade_accumulation(m: AssetMetric, ds: Seq<DetailsV>)
    requires
        forall|k: int| 0 <= k < ds.len() ==> (#[trigger] ds[k]) is Trade,
    ensures
        spec_apply_all(m, ds) == (match (
            spec_fold_purchase(m.total_purchase, ds),
            spec_fold_sale(m.total_sale, ds),
            spec_fold_value(m.value, ds),
        ) {
            (Some(p), Some(s), Some(v)) => Some(
                AssetMetric { total_purchase: p, total_sale: s, value: v },
            ),
            _ => None,
        }),
    decreases ds.len(),
{
    if ds.len() > 0 {
        assert(ds.last() == ds[ds.len() - 1]);
        assert forall|k: int| 0 <= k < ds.drop_last().len() implies (#[trigger] ds.drop_last()[k])
            is Trade by {
            assert(ds.drop_last()[k] == ds[k]);
        }
        lemma_trade_accumulation(m, ds.drop_last());
    }
}

/// The mark overwrite law: a mark record replaces the value with the
/// mark's absolute value exactly, while the purchase and sale totals are
/// carried forward unchanged.
pub proof fn lemma_mark_overwrite(last: AssetMetric, m: MarkDetailsV)
    ensures
        match spec_apply_details(last, DetailsV::Mark(m)) {
            Some(m2) => {
                &&& spec_dec_to_signed(m.value) == Some(m2.value)
                &&& m2.total_purchase == last.total_purchase
                &&& m2.total_sale == last.total_sale
            },
            None => spec_dec_to_signed(m.value) is None,
        },
{
}

/// Powers of ten multiply: `10^(a+b) == 10^a * 10^b`.
proof fn lemma_pow10_add(a: nat, b: nat)
    ensures
        pow10(a + b) == pow10(a) * pow10(b),
    decreases b,
{
    if b == 0 {
        assert(pow10(a) * 1 == pow10(a));
    } else {
        lemma_pow10_add(a, (b - 1) as nat);
        assert(pow10(a + b) == 10 * pow10((a + b - 1) as nat));
        assert(pow10(b) == 10 * pow10((b - 1) as nat));
        lemma_mul_is_associative(10, pow10(a) as int, pow10((b - 1) as nat) as int);
        lemma_mul_is_commutative(10, pow10(a) as int);
        lemma_mul_is_associative(pow10(a) as int, 10, pow10((b - 1) as nat) as int);
    }
}

/// Rebasing a mantissa in two hops equals rebasing it in one.
proof fn lemma_scale_up_twice(m: int, from: u32, mid: u32, s: u32)
    requires
        from <= mid <= s,
    ensures
        (m * pow10((mid - from) as nat)) * pow10((s - mid) as nat) == m * pow10(
            (s - from) as nat,
        ),
{
    lemma_pow10_add((mid - from) as nat, (s - mid) as nat);
    lemma_mul_is_associative(m, pow10((mid - from) as nat) as int, pow10((s - mid) as nat) as int);
}

/// An exact decimal sum, rebased to any common scale, is the sum of its
/// operands rebased to that scale.
proof fn lemma_dec_add_at(a: Decimal, b: Decimal, s: u32)
    requires
        spec_dec_add(a, b) is Some,
        s >= spec_max_scale(a.scale, b.scale),
    ensures
        ({
            let r = spec_dec_add(a, b).unwrap();
            spec_dec_at(r, s) == spec_dec_at(a, s) + spec_dec_at(b, s)
        }),
{
    let m = spec_max_scale(a.scale, b.scale);
    let r = spec_dec_add(a, b).unwrap();
    let ma = spec_dec_at(a, m);
    let mb = spec_dec_at(b, m);
    lemma_mul_is_distributive_add_other_way(pow10((s - m) as nat) as int, ma, mb);
    lemma_scale_up_twice(a.mantissa as int, a.scale, m, s);
    lemma_scale_up_twice(b.mantissa as int, b.scale, m, s);
}

/// An exact signed sum or difference, rebased to any common scale, is the
/// corresponding sum or difference of its operands rebased to that scale.
proof fn lemma_sdec_add_mag_at(v: SignedDecimal, positive: bool, m: Decimal, s: u32)
    requires
        spec_sdec_add_mag(v, positive, m) is Some,
        s >= spec_max_scale(v.scale, m.scale),
    ensures
        ({
            let r = spec_sdec_add_mag(v, positive, m).unwrap();
            spec_sdec_at(r, s) == if positive {
                spec_sdec_at(v, s) + spec_dec_at(m, s)
            } else {
                spec_sdec_at(v, s) - spec_dec_at(m, s)
            }
        }),
{
    let c = spec_max_scale(v.scale, m.scale);
    let r = spec_sdec_add_mag(v, positive, m).unwrap();
    let mv = spec_sdec_at(v, c);
    let mm = spec_dec_at(m, c);
    if positive {
        lemma_mul_is_distributive_add_other_way(pow10((s - c) as nat) as int, mv, mm);
    } else {
        lemma_mul_is_distributive_sub_other_way(pow10((s - c) as nat) as int, mv, mm);
    }
    lemma_scale_up_twice(v.mantissa as int, v.scale, c, s);
    lemma_scale_up_twice(m.mantissa as int, m.scale, c, s);
}

/// A metric is balanced when, at every common scale, its value equals its
/// purchase total minus its sale total — the exact-arithmetic form of
/// "value is the signed sum of the flows".
pub open spec fn spec_balanced(m: AssetMetric) -> bool {
    forall|s: u32|
        s >= m.value.scale && s >= m.total_purchase.scale && s >= m.total_sale.scale
            ==> #[trigger] spec_sdec_at(m.value, s) == spec_dec_at(m.total_purchase, s)
            - spec_dec_at(m.total_sale, s)
}

/// The zero metric is balanced.
proof fn lemma_zero_balanced()
    ensures
        spec_balanced(spec_metric_zero()),
{
    let z = spec_metric_zero();
    assert forall|s: u32|
        s >= z.value.scale && s >= z.total_purchase.scale && s >= z.total_sale.scale
            implies #[trigger] spec_sdec_at(z.value, s) == spec_dec_at(z.total_purchase, s)
            - spec_dec_at(z.total_sale, s) by {
        assert(0 * (pow10((s - 0) as nat) as int) == 0);
    }
}

/// Applying one trade to a balanced metric keeps it balanced.
proof fn lemma_apply_trade_balanced(m: AssetMetric, d: DetailsV)
    requires
        d is Trade,
        spec_balanced(m),
        spec_apply_details(m, d) is Some,
    ensures
        spec_balanced(spec_apply_details(m, d).unwrap()),
{
    let t = d->Trade_0;
    let amt = t.signed_amount.value;
    let buying = t.signed_amount.sign == Sign::Positive;
    let m2 = spec_apply_details(m, d).unwrap();
    assert forall|s: u32|
        s >= m2.value.scale && s >= m2.total_purchase.scale && s >= m2.total_sale.scale
            implies #[trigger] spec_sdec_at(m2.value, s) == spec_dec_at(m2.total_purchase, s)
            - spec_dec_at(m2.total_sale, s) by {
        lemma_sdec_add_mag_at(m.value, buying, amt, s);
        if buying {
            lemma_dec_add_at(m.total_purchase, amt, s);
        } else {
            lemma_dec_add_at(m.total_sale, amt, s);
        }
        assert(spec_sdec_at(m.value, s) == spec_dec_at(m.total_purchase, s) - spec_dec_at(
            m.total_sale,
            s,
        ));
    }
}

/// Applying any sequence of trades to a balanced metric keeps it
/// balanced.
proof fn lemma_apply_all_balanced(m: AssetMetric, ds: Seq<DetailsV>)
    requires
        forall|k: int| 0 <= k < ds.len() ==> (#[trigger] ds[k]) is Trade,
        spec_balanced(m),
        spec_apply_all(m, ds) is Some,
    ensures
        spec_balanced(spec_apply_all(m, ds).unwrap()),
    decreases ds.len(),
{
    if ds.len() > 0 {
        assert forall|k: int| 0 <= k < ds.drop_last().len() implies (#[trigger] ds.drop_last()[k])
            is Trade by {
            assert(ds.drop_last()[k] == ds[k]);
        }
        lemma_apply_all_balanced(m, ds.drop_last());
        assert(ds.last() == ds[ds.len() - 1]);
        lemma_apply_trade_balanced(spec_apply_all(m, ds.drop_last()).unwrap(), ds.last());
    }
}

/// Profit collapses to zero for pure trades: starting from the zero
/// metric and applying only trade records, the derived profit
/// `value - total_purchase + total_sale` has mantissa zero whenever it is
/// computed at all.
pub proof fn lemma_pure_trades_profit_zero(ds: Seq<DetailsV>)
    requires
        forall|k: int| 0 <= k < ds.len() ==> (#[trigger] ds[k]) is Trade,
        spec_apply_all(spec_metric_zero(), ds) is Some,
    ensures
        ({
            let m2 = spec_apply_all(spec_metric_zero(), ds).unwrap();
            match spec_profit(m2.value, m2.total_purchase, m2.total_sale) {
                Some(pr) => pr.mantissa == 0,
                None => true,
            }
        }),
{
    lemma_zero_balanced();
    lemma_apply_all_balanced(spec_metric_zero(), ds);
    let m2 = spec_apply_all(spec_metric_zero(), ds).unwrap();
    match spec_profit(m2.value, m2.total_purchase, m2.total_sale) {
        Some(pr) => {
            let v1 = spec_sdec_add_mag(m2.value, false, m2.total_purchase).unwrap();
            let s1 = spec_max_scale(m2.value.scale, m2.total_purchase.scale);
            let s2 = spec_max_scale(v1.scale, m2.total_sale.scale);
            lemma_sdec_add_mag_at(m2.value, false, m2.total_purchase, s2);
            lemma_sdec_add_mag_at(v1, true, m2.total_sale, s2);
            assert(spec_sdec_at(m2.value, s2) == spec_dec_at(m2.total_purchase, s2) - spec_dec_at(
                m2.total_sale,
                s2,
            ));
            assert(spec_sdec_at(pr, s2) == 0);
            assert(spec_sdec_at(pr, s2) == (pr.mantissa as int) * (pow10(0) as int));
            assert((pr.mantissa as int) * 1 == pr.mantissa as int);
        },
        None => {},
    }
}

/// Left-to-right unfolding of [`spec_apply_all`].
proof fn lemma_apply_all_left(m: AssetMetric, ds: Seq<DetailsV>)
    requires
        ds.len() > 0,
    ensures
        spec_apply_all(m, ds) == (match spec_apply_details(m, ds[0]) {
            None => None,
            Some(m1) => spec_apply_all(m1, ds.subrange(1, ds.len() as int)),
        }),
    decreases ds.len(),
{
    let rest = ds.subrange(1, ds.len() as int);
    if ds.len() == 1 {
        assert(ds.drop_last() =~= Seq::<DetailsV>::empty());
        assert(ds.last() == ds[0]);
        assert(rest =~= Seq::<DetailsV>::empty());
        assert(spec_apply_all(m, ds.drop_last()) == Some(m));
        assert(spec_apply_all(m, ds) == spec_apply_details(m, ds[0]));
        match spec_apply_details(m, ds[0]) {
            None => {},
            Some(m1) => {
                assert(spec_apply_all(m1, rest) == Some(m1));
            },
        }
    } else {
        let head = ds.drop_last();
        lemma_apply_all_left(m, head);
        assert(head[0] == ds[0]);
        let head_rest = head.subrange(1, head.len() as int);
        assert(head_rest =~= rest.drop_last());
        assert(rest.last() == ds.last());
        assert(spec_apply_all(m, ds) == (match spec_apply_all(m, head) {
            None => None,
            Some(mk) => spec_apply_details(mk, ds.last()),
        }));
        match spec_apply_details(m, ds[0]) {
            None => {
                assert(spec_apply_all(m, head) is None);
            },
            Some(m1) => {
                assert(spec_apply_all(m, head) == spec_apply_all(m1, head_rest));
                assert(spec_apply_all(m1, rest) == (match spec_apply_all(m1, rest.drop_last()) {
                    None => None,
                    Some(mk) => spec_apply_details(mk, rest.last()),
                }));
                assert(spec_apply_all(m1, rest.drop_last()) == spec_apply_all(m1, head_rest));
            },
        }
    }
}

/// The records of `recs` about the symbol whose canonical text is `t`,
/// in order.
pub open spec fn spec_records_for(recs: Seq<RecordV>, t: Seq<char>) -> Seq<RecordV> {
    recs.filter(|r: RecordV| spec_symbol_text(spec_details_symbol(r.details)) == t)
}

/// The details of those records, in order.
pub open spec fn spec_details_for(recs: Seq<RecordV>, t: Seq<char>) -> Seq<DetailsV> {
    spec_records_for(recs, t).map_values(|r: RecordV| r.details)
}

/// The latest metric the state holds for canonical symbol text `t` (the
/// zero metric when the symbol has no record yet).
pub open spec fn spec_latest_for(st: EngineStateV, t: Seq<char>) -> AssetMetric {
    let i = spec_find_latest(st.snapshots, t);
    if i == -1 {
        spec_metric_zero()
    } else {
        st.snapshots[i].1
    }
}

/// Left decomposition of the per-symbol details.
proof fn lemma_details_for_left(recs: Seq<RecordV>, t: Seq<char>)
    requires
        recs.len() > 0,
    ensures
        spec_details_for(recs, t) == if spec_symbol_text(spec_details_symbol(recs[0].details))
            == t {
            seq![recs[0].details] + spec_details_for(recs.subrange(1, recs.len() as int), t)
        } else {
            spec_details_for(recs.subrange(1, recs.len() as int), t)
        },
{
    reveal(Seq::filter);
    let pred = |r: RecordV| spec_symbol_text(spec_details_symbol(r.details)) == t;
    let head = seq![recs[0]];
    let rest = recs.subrange(1, recs.len() as int);
    assert(recs =~= head + rest);
    Seq::filter_distributes_over_add(head, rest, pred);
    assert(head.drop_last() =~= Seq::<RecordV>::empty());
    assert(head.last() == recs[0]);
    assert(head.drop_last().filter(pred) == Seq::<RecordV>::empty().filter(pred));
    assert(Seq::<RecordV>::empty().filter(pred) =~= Seq::<RecordV>::empty());
    if pred(recs[0]) {
        assert(head.filter(pred) =~= seq![recs[0]]);
        assert((seq![recs[0]] + rest.filter(pred)).map_values(|r: RecordV| r.details) =~= seq![
            recs[0].details,
        ] + rest.filter(pred).map_values(|r: RecordV| r.details));
    } else {
        assert(head.filter(pred) =~= Seq::<RecordV>::empty());
        assert((Seq::<RecordV>::empty() + rest.filter(pred)) =~= rest.filter(pred));
    }
}

/// One evaluated record moves only its own symbol's latest metric, by one
/// application of its details; every other symbol's metric is untouched.
proof fn lemma_eval_record_latest(st: EngineStateV, rec: RecordV, t: Seq<char>)
    requires
        spec_eval_record(st, rec) is Some,
    ensures
        ({
            let st1 = spec_eval_record(st, rec).unwrap();
            if spec_symbol_text(spec_details_symbol(rec.details)) == t {
                spec_apply_details(spec_latest_for(st, t), rec.details) == Some(
                    spec_latest_for(st1, t),
                )
            } else {
                spec_latest_for(st1, t) == spec_latest_for(st, t)
            }
        }),
{
    let sym = spec_symbol_text(spec_details_symbol(rec.details));
    let stu = spec_upsert_asset(st, sym, None, None);
    assert(stu.snapshots == st.snapshots);
    let li = spec_find_latest(st.snapshots, sym);
    lemma_find_latest_props(st.snapshots, sym);
    let last = if li == -1 {
        spec_metric_zero()
    } else {
        st.snapshots[li].1
    };
    let m = spec_apply_details(last, rec.details).unwrap();
    let st1 = spec_eval_record(st, rec).unwrap();
    let snaps1 = st1.snapshots;
    lemma_find_latest_props(snaps1, t);
    lemma_find_latest_props(st.snapshots, t);
    let lt = spec_find_latest(st.snapshots, t);
    let lt1 = spec_find_latest(snaps1, t);
    if li == -1 {
        assert(snaps1 == st.snapshots.push((sym, m)));
        if sym == t {
            // No earlier entry for t, and the pushed entry carries t.
            assert(snaps1[snaps1.len() - 1].0 == t);
            assert(lt1 != -1);
            assert forall|k: int| 0 <= k < st.snapshots.len() implies (
            #[trigger] snaps1[k]).0 != t by {
                assert(snaps1[k] == st.snapshots[k]);
            }
            assert(lt1 == snaps1.len() - 1);
        } else {
            if lt == -1 {
                assert forall|k: int| 0 <= k < snaps1.len() implies (#[trigger] snaps1[k]).0
                    != t by {
                    if k < st.snapshots.len() {
                        assert(snaps1[k] == st.snapshots[k]);
                    }
                }
                assert(lt1 == -1);
            } else {
                assert(snaps1[lt].0 == t);
                assert forall|k: int| 0 <= k < lt implies (#[trigger] snaps1[k]).0 != t by {
                    assert(snaps1[k] == st.snapshots[k]);
                }
                assert(lt1 == lt);
                assert(snaps1[lt1] == st.snapshots[lt]);
            }
        }
    } else {
        assert(snaps1 == st.snapshots.update(li, (sym, m)));
        assert(snaps1.len() == st.snapshots.len());
        if sym == t {
            // The first entry for t is at li, before and after the update.
            assert(lt == li);
            assert(snaps1[li].0 == t);
            assert forall|k: int| 0 <= k < li implies (#[trigger] snaps1[k]).0 != t by {
                assert(snaps1[k] == st.snapshots[k]);
            }
            assert(lt1 == li);
        } else {
            assert(st.snapshots[li].0 == sym);
            if lt == -1 {
                assert forall|k: int| 0 <= k < snaps1.len() implies (#[trigger] snaps1[k]).0
                    != t by {
                    if k != li {
                        assert(snaps1[k] == st.snapshots[k]);
                    }
                }
                assert(lt1 == -1);
            } else {
                assert(lt != li);
                assert(snaps1[lt].0 == t);
                assert forall|k: int| 0 <= k < lt implies (#[trigger] snaps1[k]).0 != t by {
                    if k != li {
                        assert(snaps1[k] == st.snapshots[k]);
                    }
                }
                assert(lt1 == lt);
                assert(snaps1[lt1] == st.snapshots[lt]);
            }
        }
    }
}

/// The per-symbol projection of the replay: after a successful replay,
/// the latest metric of any symbol is exactly the fold of that symbol's
/// own record details, in replay order, over its previous latest metric.
/// Instantiated with only-trade records this chains with
/// [`lemma_trade_accumulation`] into the accumulation law.
pub proof fn lemma_replay_per_symbol(st: EngineStateV, recs: Seq<RecordV>, t: Seq<char>)
    ensures
        match spec_replay(st, recs) {
            Some(st2) => spec_apply_all(spec_latest_for(st, t), spec_details_for(recs, t))
                == Some(spec_latest_for(st2, t)),
            None => true,
        },
    decreases recs.len(),
{
    if recs.len() == 0 {
        assert(spec_records_for(recs, t) =~= Seq::<RecordV>::empty());
        assert(spec_details_for(recs, t) =~= Seq::<DetailsV>::empty());
    } else {
        match spec_eval_record(st, recs[0]) {
            None => {},
            Some(st1) => {
                let rest = recs.subrange(1, recs.len() as int);
                lemma_eval_record_latest(st, recs[0], t);
                lemma_details_for_left(recs, t);
                lemma_replay_per_symbol(st1, rest, t);
                match spec_replay(st1, rest) {
                    None => {},
                    Some(st2) => {
                        let ds = spec_details_for(recs, t);
                        if spec_symbol_text(spec_details_symbol(recs[0].details)) == t {
                            assert(ds == seq![recs[0].details] + spec_details_for(rest, t));
                            assert(ds.len() > 0);
                            assert(ds[0] == recs[0].details);
                            assert(ds.subrange(1, ds.len() as int) =~= spec_details_for(rest, t));
                            lemma_apply_all_left(spec_latest_for(st, t), ds);
                        }
                    },
                }
            },
        }
    }
}

/// The canonical symbol text a record output is keyed by.
pub open spec fn spec_out_sym(o: RecordOutputV) -> Seq<char> {
    spec_symbol_text(spec_details_symbol(o.program.details))
}

/// Strictly earlier in the lexicographic date order.
pub open spec fn spec_lex_lt(a: Seq<char>, b: Seq<char>) -> bool {
    spec_lex_le(a, b) && a != b
}

/// The snapshots of all outputs about symbol text `s` on date `d`, in
/// output order.
pub open spec fn spec_snaps_for(outs: Seq<RecordOutputV>, s: Seq<char>, d: Seq<char>) -> Seq<
    SnapshotV,
> {
    outs.filter(|o: RecordOutputV| spec_out_sym(o) == s && o.program.date == d).map_values(
        |o: RecordOutputV| spec_snapshot_of(o),
    )
}

/// Per symbol, the output dates never decrease along the output order.
pub open spec fn spec_per_symbol_sorted(outs: Seq<RecordOutputV>) -> bool {
    forall|a: int, b: int|
        0 <= a < b < outs.len() && spec_out_sym(#[trigger] outs[a]) == spec_out_sym(
            #[trigger] outs[b],
        ) ==> spec_lex_le(outs[a].program.date, outs[b].program.date)
}

/// What it means for daily buckets to group `outs`: bucket keys are
/// distinct symbols; every group is non-empty, carries its bucket's
/// symbol, and holds exactly the snapshots of that symbol's outputs on
/// its date, in output order; the groups of one bucket are ordered by
/// strictly ascending date; and every output has its bucket and its
/// group.
pub open spec fn spec_buckets_grouped(
    outs: Seq<RecordOutputV>,
    bs: Seq<(Seq<char>, Seq<DailySnapshotV>)>,
) -> bool {
    &&& (forall|i: int, j: int|
        0 <= i < j < bs.len() ==> (#[trigger] bs[i]).0 != (#[trigger] bs[j]).0)
    &&& (forall|i: int| 0 <= i < bs.len() ==> (#[trigger] bs[i]).1.len() > 0)
    &&& (forall|i: int, j: int|
        0 <= i < bs.len() && 0 <= j < bs[i].1.len() ==> (#[trigger] bs[i].1[j]).symbol
            == bs[i].0)
    &&& (forall|i: int, j: int|
        0 <= i < bs.len() && 0 <= j < bs[i].1.len() ==> (#[trigger] bs[i].1[j]).snapshots.len()
            > 0)
    &&& (forall|i: int, a: int, b: int|
        0 <= i < bs.len() && 0 <= a < b < bs[i].1.len() ==> spec_lex_lt(
            (#[trigger] bs[i].1[a]).date,
            (#[trigger] bs[i].1[b]).date,
        ))
    &&& (forall|i: int, j: int|
        0 <= i < bs.len() && 0 <= j < bs[i].1.len() ==> (#[trigger] bs[i].1[j]).snapshots
            == spec_snaps_for(outs, bs[i].0, bs[i].1[j].date))
    &&& (forall|k: int|
        0 <= k < outs.len() ==> spec_find_bucket(bs, spec_out_sym(#[trigger] outs[k])) != -1)
    &&& (forall|k: int|
        0 <= k < outs.len() ==> {
            let bi = spec_find_bucket(bs, spec_out_sym(#[trigger] outs[k]));
            bi != -1 && spec_find_date(bs[bi as int].1, outs[k].program.date) != -1
        })
}

/// Appending one output extends exactly its own symbol-and-date group's
/// snapshots.
proof fn lemma_snaps_for_extend(prev: Seq<RecordOutputV>, o: RecordOutputV, s: Seq<char>, d: Seq<
    char,
>)
    ensures
        spec_snaps_for(prev.push(o), s, d) == if spec_out_sym(o) == s && o.program.date == d {
            spec_snaps_for(prev, s, d).push(spec_snapshot_of(o))
        } else {
            spec_snaps_for(prev, s, d)
        },
{
    reveal(Seq::filter);
    let pred = |x: RecordOutputV| spec_out_sym(x) == s && x.program.date == d;
    let whole = prev.push(o);
    assert(whole.drop_last() =~= prev);
    assert(whole.last() == o);
    if pred(o) {
        assert(whole.filter(pred) == prev.filter(pred).push(o));
        assert(prev.filter(pred).push(o).map_values(|x: RecordOutputV| spec_snapshot_of(x))
            =~= prev.filter(pred).map_values(|x: RecordOutputV| spec_snapshot_of(x)).push(
            spec_snapshot_of(o),
        ));
    } else {
        assert(whole.filter(pred) == prev.filter(pred));
    }
}

/// A non-empty symbol-and-date group means such an output exists.
proof fn lemma_snaps_nonempty_exists(outs: Seq<RecordOutputV>, s: Seq<char>, d: Seq<char>)
    requires
        spec_snaps_for(outs, s, d).len() > 0,
    ensures
        exists|k: int|
            0 <= k < outs.len() && spec_out_sym(#[trigger] outs[k]) == s && outs[k].program.date
                == d,
{
    let pred = |x: RecordOutputV| spec_out_sym(x) == s && x.program.date == d;
    let f = outs.filter(pred);
    assert(f.len() > 0);
    outs.lemma_filter_pred(pred, 0);
    assert(f.contains(f[0]));
    outs.lemma_filter_contains_rev(pred, f[0]);
    let k = choose|k: int| 0 <= k < outs.len() && outs[k] == f[0];
    assert(pred(outs[k]));
}

/// No output about symbol `s` on date `d` means its group is empty.
proof fn lemma_snaps_for_empty(outs: Seq<RecordOutputV>, s: Seq<char>, d: Seq<char>)
    requires
        forall|k: int|
            0 <= k < outs.len() ==> !(spec_out_sym(#[trigger] outs[k]) == s && outs[k].program.date
                == d),
    ensures
        spec_snaps_for(outs, s, d).len() == 0,
{
    let pred = |x: RecordOutputV| spec_out_sym(x) == s && x.program.date == d;
    assert(outs.all(|x: RecordOutputV| !pred(x))) by {
        assert forall|k: int| 0 <= k < outs.len() implies !pred(#[trigger] outs[k]) by {}
    }
    outs.lemma_all_neg_filter_empty(pred);
}

/// The daily bucketing groups its outputs: when each symbol's outputs
/// arrive in non-decreasing date order (as the chronological replay
/// guarantees), the buckets are keyed by distinct symbols, each bucket's
/// groups carry strictly ascending dates, and each group holds exactly
/// that symbol's outputs of that date, in output order.
pub proof fn lemma_bucket_grouped(outs: Seq<RecordOutputV>)
    requires
        spec_per_symbol_sorted(outs),
    ensures
        spec_buckets_grouped(outs, spec_bucket(outs)),
    decreases outs.len(),
{
    if outs.len() == 0 {
        assert(spec_bucket(outs) =~= Seq::<(Seq<char>, Seq<DailySnapshotV>)>::empty());
    } else {
        let prev = outs.drop_last();
        let o = outs.last();
        let s = spec_out_sym(o);
        let d = o.program.date;
        let snap = spec_snapshot_of(o);
        assert forall|a: int, b: int|
            0 <= a < b < prev.len() && spec_out_sym(#[trigger] prev[a]) == spec_out_sym(
                #[trigger] prev[b],
            ) implies spec_lex_le(prev[a].program.date, prev[b].program.date) by {
            assert(prev[a] == outs[a]);
            assert(prev[b] == outs[b]);
        }
        lemma_bucket_grouped(prev);
        let bs = spec_bucket(prev);
        let bs2 = spec_bucket(outs);
        assert(bs2 == spec_bucket_one(bs, o));
        lemma_find_bucket_props(bs, s);
        let bi = spec_find_bucket(bs, s);
        assert forall|ss: Seq<char>, dd: Seq<char>| !(ss == s && dd == d) implies spec_snaps_for(
            outs,
            ss,
            dd,
        ) == spec_snaps_for(prev, ss, dd) by {
            assert(prev.push(o) =~= outs);
            lemma_snaps_for_extend(prev, o, ss, dd);
        }
        assert(prev.push(o) =~= outs);
        lemma_snaps_for_extend(prev, o, s, d);
        assert(spec_snaps_for(outs, s, d) == spec_snaps_for(prev, s, d).push(snap));
        if bi == -1 {
            // A fresh symbol: a new bucket with a single one-snapshot group.
            let day = DailySnapshotV { symbol: s, date: d, snapshots: seq![snap] };
            assert(bs2 == bs.push((s, seq![day])));
            // No previous output is about s at all (its bucket would exist).
            assert forall|k: int| 0 <= k < prev.len() implies !(spec_out_sym(#[trigger] prev[k])
                == s && prev[k].program.date == d) by {
                if spec_out_sym(prev[k]) == s {
                    assert(spec_find_bucket(bs, spec_out_sym(prev[k])) != -1);
                }
            }
            lemma_snaps_for_empty(prev, s, d);
            assert(spec_snaps_for(prev, s, d) =~= Seq::<SnapshotV>::empty());
            assert(day.snapshots =~= spec_snaps_for(outs, s, d));
            // Characterize lookups in the extended bucket list.
            assert forall|t: Seq<char>| true implies #[trigger] spec_find_bucket(bs2, t) == (
            if t == s {
                bs.len() as int
            } else {
                spec_find_bucket(bs, t)
            }) by {
                lemma_find_bucket_props(bs2, t);
                lemma_find_bucket_props(bs, t);
                let r2 = spec_find_bucket(bs2, t);
                let r = spec_find_bucket(bs, t);
                assert(bs2[bs.len() as int].0 == s);
                assert forall|k: int| 0 <= k < bs.len() implies (#[trigger] bs2[k]) == bs[k] by {}
                if t == s {
                    assert(r == -1);
                    assert(r2 != -1);
                    assert(r2 == bs.len() as int);
                } else {
                    if r == -1 {
                        assert(r2 == -1);
                    } else {
                        assert(bs2[r].0 == t);
                        assert(r2 == r);
                    }
                }
            }
            assert(spec_buckets_grouped(outs, bs2)) by {
                assert forall|i: int, j: int|
                    0 <= i < bs2.len() && 0 <= j < bs2[i].1.len() implies (
                #[trigger] bs2[i].1[j]).snapshots == spec_snaps_for(
                    outs,
                    bs2[i].0,
                    bs2[i].1[j].date,
                ) by {
                    if i < bs.len() {
                        assert(bs2[i] == bs[i]);
                        assert(bs[i].0 != s);
                    } else {
                        assert(bs2[i].1 =~= seq![day]);
                    }
                }
                assert forall|k: int|
                    0 <= k < outs.len() implies {
                    let bk = spec_find_bucket(bs2, spec_out_sym(#[trigger] outs[k]));
                    bk != -1 && spec_find_date(bs2[bk as int].1, outs[k].program.date) != -1
                } by {
                    let tk = spec_out_sym(outs[k]);
                    if k < prev.len() {
                        assert(outs[k] == prev[k]);
                        lemma_find_bucket_props(bs, tk);
                        let bk0 = spec_find_bucket(bs, tk);
                        assert(bk0 != -1);
                        assert(tk != s);
                        assert(spec_find_bucket(bs2, tk) == bk0);
                        assert(bs2[bk0] == bs[bk0]);
                        assert(bs2[bk0].1 == bs[bk0].1);
                    } else {
                        assert(outs[k] == o);
                        assert(spec_find_bucket(bs2, s) == bs.len() as int);
                        lemma_find_date_props(bs2[bs.len() as int].1, d);
                        assert(bs2[bs.len() as int].1[0].date == d);
                    }
                }
            }
        } else {
            let days = bs[bi].1;
            lemma_find_date_props(days, d);
            let dj = spec_find_date(days, d);
            // Lookups are unchanged: the updated bucket keeps its key.
            assert(bs[bi].0 == s);
            if dj == -1 {
                let day = DailySnapshotV { symbol: s, date: d, snapshots: seq![snap] };
                let days2 = days.push(day);
                assert(bs2 == bs.update(bi, (s, days2)));
                // No previous output about s carries date d: its group
                // would exist.
                assert forall|k: int| 0 <= k < prev.len() implies !(spec_out_sym(
                    #[trigger] prev[k],
                ) == s && prev[k].program.date == d) by {
                    if spec_out_sym(prev[k]) == s && prev[k].program.date == d {
                        assert(spec_find_bucket(bs, spec_out_sym(prev[k])) == bi);
                        assert(spec_find_date(bs[bi].1, prev[k].program.date) != -1);
                    }
                }
                lemma_snaps_for_empty(prev, s, d);
                assert(spec_snaps_for(prev, s, d) =~= Seq::<SnapshotV>::empty());
                assert(day.snapshots =~= spec_snaps_for(outs, s, d));
                // Every existing group of this bucket has a strictly
                // earlier date than d.
                assert forall|a: int| 0 <= a < days.len() implies spec_lex_lt(
                    (#[trigger] days[a]).date,
                    d,
                ) by {
                    assert(days[a].snapshots == spec_snaps_for(prev, s, days[a].date));
                    assert(days[a].snapshots.len() > 0);
                    lemma_snaps_nonempty_exists(prev, s, days[a].date);
                    let k = choose|k: int|
                        0 <= k < prev.len() && spec_out_sym(#[trigger] prev[k]) == s
                            && prev[k].program.date == days[a].date;
                    assert(prev[k] == outs[k]);
                    assert(outs[outs.len() - 1] == o);
                    assert(spec_lex_le(outs[k].program.date, d));
                    assert(days[a].date != d);
                }
                assert forall|t: Seq<char>| true implies #[trigger] spec_find_bucket(bs2, t)
                    == spec_find_bucket(bs, t) by {
                    lemma_find_bucket_props(bs2, t);
                    lemma_find_bucket_props(bs, t);
                    let r2 = spec_find_bucket(bs2, t);
                    let r = spec_find_bucket(bs, t);
                    assert(bs2.len() == bs.len());
                    assert forall|k: int| 0 <= k < bs.len() implies (#[trigger] bs2[k]).0
                        == bs[k].0 by {
                        if k != bi {
                            assert(bs2[k] == bs[k]);
                        }
                    }
                    if r == -1 {
                        assert(r2 == -1);
                    } else {
                        assert(bs2[r].0 == t);
                        assert(r2 == r);
                    }
                }
                assert(spec_buckets_grouped(outs, bs2)) by {
                    assert forall|i: int, j: int|
                        0 <= i < bs2.len() && 0 <= j < bs2[i].1.len() implies (
                    #[trigger] bs2[i].1[j]).snapshots == spec_snaps_for(
                        outs,
                        bs2[i].0,
                        bs2[i].1[j].date,
                    ) by {
                        if i != bi {
                            assert(bs2[i] == bs[i]);
                            assert(bs[i].0 != s);
                        } else {
                            assert(bs2[i].1 == days2);
                            if j < days.len() {
                                assert(days2[j] == days[j]);
                                assert(days[j].date != d);
                            } else {
                                assert(days2[j] == day);
                            }
                        }
                    }
                    assert forall|i: int, a: int, b: int|
                        0 <= i < bs2.len() && 0 <= a < b < bs2[i].1.len() implies spec_lex_lt(
                        (#[trigger] bs2[i].1[a]).date,
                        (#[trigger] bs2[i].1[b]).date,
                    ) by {
                        if i != bi {
                            assert(bs2[i] == bs[i]);
                        } else {
                            if b < days.len() {
                                assert(days2[a] == days[a]);
                                assert(days2[b] == days[b]);
                            } else {
                                assert(days2[b] == day);
                                assert(days2[a] == days[a]);
                            }
                        }
                    }
                    assert forall|k: int|
                        0 <= k < outs.len() implies {
                        let bk = spec_find_bucket(bs2, spec_out_sym(#[trigger] outs[k]));
                        bk != -1 && spec_find_date(bs2[bk as int].1, outs[k].program.date) != -1
                    } by {
                        let tk = spec_out_sym(outs[k]);
                        let dk = outs[k].program.date;
                        assert(spec_find_bucket(bs2, tk) == spec_find_bucket(bs, tk));
                        if k < prev.len() {
                            assert(outs[k] == prev[k]);
                            lemma_find_bucket_props(bs, tk);
                            let bk0 = spec_find_bucket(bs, tk);
                            assert(bk0 != -1);
                            assert(spec_find_date(bs[bk0 as int].1, dk) != -1);
                            if bk0 == bi {
                                lemma_find_date_props(days, dk);
                                lemma_find_date_props(days2, dk);
                                let r = spec_find_date(days, dk);
                                assert(days2[r] == days[r]);
                                assert(days2[r].date == dk);
                                assert forall|x: int| 0 <= x < r implies (
                                #[trigger] days2[x]).date != dk by {
                                    assert(days2[x] == days[x]);
                                }
                                assert(spec_find_date(days2, dk) == r);
                            } else {
                                assert(bs2[bk0 as int] == bs[bk0 as int]);
                            }
                        } else {
                            assert(outs[k] == o);
                            assert(spec_find_bucket(bs2, s) == bi);
                            lemma_find_date_props(days2, d);
                            assert(days2[days.len() as int].date == d);
                            assert(spec_find_date(days2, d) != -1);
                        }
                    }
                }
            } else {
                // An existing date group: the snapshot is appended to it.
                let day0 = days[dj];
                let day = DailySnapshotV {
                    symbol: day0.symbol,
                    date: day0.date,
                    snapshots: day0.snapshots.push(snap),
                };
                let days2 = days.update(dj, day);
                assert(bs2 == bs.update(bi, (s, days2)));
                assert(day0.date == d);
                assert forall|t: Seq<char>| true implies #[trigger] spec_find_bucket(bs2, t)
                    == spec_find_bucket(bs, t) by {
                    lemma_find_bucket_props(bs2, t);
                    lemma_find_bucket_props(bs, t);
                    let r2 = spec_find_bucket(bs2, t);
                    let r = spec_find_bucket(bs, t);
                    assert(bs2.len() == bs.len());
                    assert forall|k: int| 0 <= k < bs.len() implies (#[trigger] bs2[k]).0
                        == bs[k].0 by {
                        if k != bi {
                            assert(bs2[k] == bs[k]);
                        }
                    }
                    if r == -1 {
                        assert(r2 == -1);
                    } else {
                        assert(bs2[r].0 == t);
                        assert(r2 == r);
                    }
                }
                assert(spec_buckets_grouped(outs, bs2)) by {
                    assert forall|i: int, j: int|
                        0 <= i < bs2.len() && 0 <= j < bs2[i].1.len() implies (
                    #[trigger] bs2[i].1[j]).snapshots == spec_snaps_for(
                        outs,
                        bs2[i].0,
                        bs2[i].1[j].date,
                    ) by {
                        if i != bi {
                            assert(bs2[i] == bs[i]);
                            assert(bs[i].0 != s);
                        } else {
                            assert(bs2[i].1 == days2);
                            if j != dj {
                                assert(days2[j] == days[j]);
                                assert(days[j].date != d);
                            } else {
                                assert(days2[j] == day);
                                assert(day.snapshots == spec_snaps_for(prev, s, d).push(snap));
                            }
                        }
                    }
                    assert forall|i: int, a: int, b: int|
                        0 <= i < bs2.len() && 0 <= a < b < bs2[i].1.len() implies spec_lex_lt(
                        (#[trigger] bs2[i].1[a]).date,
                        (#[trigger] bs2[i].1[b]).date,
                    ) by {
                        if i != bi {
                            assert(bs2[i] == bs[i]);
                        } else {
                            assert(days2[a].date == days[a].date);
                            assert(days2[b].date == days[b].date);
                        }
                    }
                    assert forall|k: int|
                        0 <= k < outs.len() implies {
                        let bk = spec_find_bucket(bs2, spec_out_sym(#[trigger] outs[k]));
                        bk != -1 && spec_find_date(bs2[bk as int].1, outs[k].program.date) != -1
                    } by {
                        let tk = spec_out_sym(outs[k]);
                        let dk = outs[k].program.date;
                        assert(spec_find_bucket(bs2, tk) == spec_find_bucket(bs, tk));
                        if k < prev.len() {
                            assert(outs[k] == prev[k]);
                            lemma_find_bucket_props(bs, tk);
                            let bk0 = spec_find_bucket(bs, tk);
                            assert(bk0 != -1);
                            assert(spec_find_date(bs[bk0 as int].1, dk) != -1);
                            if bk0 == bi {
                                lemma_find_date_props(days, dk);
                                lemma_find_date_props(days2, dk);
                                let r = spec_find_date(days, dk);
                                assert(days2[r].date == days[r].date);
                                assert(days2[r].date == dk);
                                assert forall|x: int| 0 <= x < r implies (
                                #[trigger] days2[x]).date != dk by {
                                    assert(days2[x].date == days[x].date);
                                }
                                assert(spec_find_date(days2, dk) == r);
                            } else {
                                assert(bs2[bk0 as int] == bs[bk0 as int]);
                            }
                        } else {
                            assert(outs[k] == o);
                            assert(spec_find_bucket(bs2, s) == bi);
                            lemma_find_date_props(days2, d);
                            assert(days2[dj].date == d);
                            assert(spec_find_date(days2, d) != -1);
                        }
                    }
                }
            }
        }
    }
}

/// The chronological invariant at the report level: after a successful
/// evaluation from a fresh engine, the report's daily snapshots group the
/// outputs by symbol and then by strictly ascending date, and every group
/// holds its symbol's same-day snapshots in application order — which, by
/// [`lemma_evaluation_chronological`], is the stable chronological order
/// of the program's records.
pub proof fn lemma_report_daily_grouped(prog: Seq<StatementV>)
    ensures
        match spec_eval_state(spec_state_empty(), prog) {
            Some(st2) => spec_buckets_grouped(
                st2.record_outputs,
                spec_report_of(st2).daily_snapshot,
            ),
            None => true,
        },
{
    match spec_eval_state(spec_state_empty(), prog) {
        Some(st2) => {
            lemma_evaluation_chronological(prog);
            let recs = spec_phase_one(spec_state_empty(), prog).1;
            let sorted = spec_sort_records(recs);
            let outs = st2.record_outputs;
            assert forall|a: int, b: int|
                0 <= a < b < outs.len() && spec_out_sym(#[trigger] outs[a]) == spec_out_sym(
                    #[trigger] outs[b],
                ) implies spec_lex_le(outs[a].program.date, outs[b].program.date) by {
                assert(outs[a].program == sorted[a]);
                assert(outs[b].program == sorted[b]);
            }
            lemma_bucket_grouped(outs);
        },
        None => {},
    }
}

/// Phase one never touches the record outputs.
proof fn lemma_phase_one_outputs(st: EngineStateV, prog: Seq<StatementV>)
    ensures
        spec_phase_one(st, prog).0.record_outputs == st.record_outputs,
    decreases prog.len(),
{
    if prog.len() > 0 {
        lemma_phase_one_outputs(st, prog.drop_last());
    }
}

/// The replay appends exactly one output per record, in order: the
/// outputs after a successful replay are the previous outputs followed by
/// one output per replayed record, carrying that record.
pub proof fn lemma_replay_outputs(st: EngineStateV, recs: Seq<RecordV>)
    ensures
        match spec_replay(st, recs) {
            Some(st2) => {
                &&& st2.record_outputs.len() == st.record_outputs.len() + recs.len()
                &&& forall|k: int|
                    0 <= k < st.record_outputs.len() ==> #[trigger] st2.record_outputs[k]
                        == st.record_outputs[k]
                &&& forall|k: int|
                    0 <= k < recs.len() ==> (#[trigger] st2.record_outputs[st.record_outputs.len()
                        + k]).program == recs[k]
            },
            None => true,
        },
    decreases recs.len(),
{
    if recs.len() > 0 {
        match spec_eval_record(st, recs[0]) {
            None => {},
            Some(st1) => {
                let sym = spec_symbol_text(spec_details_symbol(recs[0].details));
                let stu = spec_upsert_asset(st, sym, None, None);
                assert(stu.record_outputs == st.record_outputs);
                let pr = spec_calc_record(stu, recs[0]).unwrap();
                assert(st1 == pr.0);
                assert(st1.record_outputs == st.record_outputs.push(pr.1));
                assert(pr.1.program == recs[0]);
                assert(st1.record_outputs.len() == st.record_outputs.len() + 1);
                assert(st1.record_outputs[st.record_outputs.len() as int].program == recs[0]);
                lemma_replay_outputs(st1, recs.subrange(1, recs.len() as int));
                match spec_replay(st1, recs.subrange(1, recs.len() as int)) {
                    None => {},
                    Some(st2) => {
                        let rest = recs.subrange(1, recs.len() as int);
                        assert forall|k: int| 0 <= k < recs.len() implies (
                        #[trigger] st2.record_outputs[st.record_outputs.len() + k]).program
                            == recs[k] by {
                            if k == 0 {
                                assert(st2.record_outputs[st1.record_outputs.len() - 1]
                                    == st1.record_outputs[st1.record_outputs.len() - 1]);
                                assert(st.record_outputs.len() + 0 == st1.record_outputs.len()
                                    - 1);
                            } else {
                                assert(rest[k - 1] == recs[k]);
                                assert((st2.record_outputs[st1.record_outputs.len() + (k
                                    - 1)]).program == rest[k - 1]);
                                assert(st1.record_outputs.len() + (k - 1)
                                    == st.record_outputs.len() + k);
                            }
                        }
                    },
                }
            },
        }
    }
}

/// The chronological invariant, end to end: after a successful evaluation
/// from a fresh engine, the record outputs are exactly the program's
/// record statements in stable ascending date order — sorted by date, with
/// records of equal dates keeping their program order (see
/// [`lemma_sort_records_sorted`] and [`lemma_sort_records_stable`]).
pub proof fn lemma_evaluation_chronological(prog: Seq<StatementV>)
    ensures
        match spec_eval_state(spec_state_empty(), prog) {
            Some(st2) => {
                let recs = spec_phase_one(spec_state_empty(), prog).1;
                let sorted = spec_sort_records(recs);
                &&& st2.record_outputs.len() == sorted.len()
                &&& forall|k: int|
                    0 <= k < sorted.len() ==> (#[trigger] st2.record_outputs[k]).program
                        == sorted[k]
                &&& spec_sorted_by_date(sorted)
                &&& forall|d: Seq<char>|
                    #[trigger] spec_same_date_records(sorted, d) == spec_same_date_records(
                        recs,
                        d,
                    )
            },
            None => true,
        },
{
    let st1 = spec_phase_one(spec_state_empty(), prog).0;
    let recs = spec_phase_one(spec_state_empty(), prog).1;
    let sorted = spec_sort_records(recs);
    lemma_phase_one_outputs(spec_state_empty(), prog);
    lemma_replay_outputs(st1, sorted);
    lemma_sort_records_sorted(recs);
    match spec_eval_state(spec_state_empty(), prog) {
        Some(st2) => {
            assert forall|k: int| 0 <= k < sorted.len() implies (
            #[trigger] st2.record_outputs[k]).program == sorted[k] by {
                assert((st2.record_outputs[st1.record_outputs.len() + k]).program == sorted[k]);
                assert(st1.record_outputs.len() + k == k);
            }
        },
        None => {},
    }
    assert forall|d: Seq<char>|
        #[trigger] spec_same_date_records(sorted, d) == spec_same_date_records(recs, d) by {
        lemma_sort_records_stable(recs, d);
    }
}

} // verus!
