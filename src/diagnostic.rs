//! Turning decoded query rows into diagnostics.
use vstd::prelude::*;
use crate::rule::InputQuery;
use crate::span::{decode_error, decode_span, raw_pairs, OutputValue, ShapeError, Span, SpanResult};

verus! {

/// The two output fields of one query row that locate what the rule found.
#[derive(Debug)]
pub struct QueryRow {
    pub span_start: Option<OutputValue>,
    pub span_end: Option<OutputValue>,
}

/// The query engine's error text, for a query that could not be run.
#[derive(Clone, Debug)]
pub struct TrustfallError(pub String);

/// One diagnostic raised by a rule: the rule's name, summary and reason, and where.
#[derive(Clone, Debug)]
pub struct LinterPluginError {
    pub rule: String,
    pub summary: String,
    pub reason: String,
    pub span: Span,
}

/// Why a rule's evaluation on one file stopped.
#[derive(Clone, Debug)]
pub enum PluginRuleError {
    /// The query engine rejected the rule's query.
    Query { rule: String, error: TrustfallError },
    /// The row at `row` holds span fields of the wrong shape.
    Shape { rule: String, row: usize, error: ShapeError },
}

/// The (start, end) pairs of a sequence of diagnostics.
pub open spec fn spans_of(d: Seq<LinterPluginError>) -> Seq<(int, int)> {
    d.map_values(|x: LinterPluginError| (x.span.start as int, x.span.end as int))
}

/// Every diagnostic carries the rule's name, summary and reason.
pub open spec fn attributed(d: Seq<LinterPluginError>, rule: InputQuery) -> bool {
    forall|i: int|
        0 <= i < d.len() ==> {
            &&& (#[trigger] d[i]).rule@ == rule.name@
            &&& d[i].summary@ == rule.summary@
            &&& d[i].reason@ == rule.reason@
        }
}

/// What a sequence of rows yields: the pairs of all rows in order, or the index
/// and error of the first row that does not decode.
pub open spec fn rows_outcome(rows: Seq<QueryRow>) -> Result<Seq<(int, int)>, (int, ShapeError)>
    decreases rows.len(),
{
    if rows.len() == 0 {
        Ok(Seq::empty())
    } else {
        match rows_outcome(rows.drop_last()) {
            Err(x) => Err(x),
            Ok(p) => {
                let last = rows.last();
                match decode_error(last.span_start, last.span_end) {
                    Some(e) => Err((rows.len() - 1, e)),
                    None => Ok(p + raw_pairs(last.span_start, last.span_end)),
                }
            },
        }
    }
}

proof fn lemma_rows_outcome_err_extends(rows: Seq<QueryRow>, n: int)
    requires
        0 <= n <= rows.len(),
        rows_outcome(rows.take(n)) is Err,
    ensures
        rows_outcome(rows) == rows_outcome(rows.take(n)),
    decreases rows.len() - n,
{
    if n < rows.len() {
        assert(rows.take(n + 1).drop_last() =~= rows.take(n));
        lemma_rows_outcome_err_extends(rows, n + 1);
    } else {
        assert(rows.take(n) =~= rows);
    }
}

fn diagnostic_at(rule: &InputQuery, start: u32, end: u32) -> (r: LinterPluginError)
    ensures
        r.rule@ == rule.name@,
        r.summary@ == rule.summary@,
        r.reason@ == rule.reason@,
        r.span == (Span { start, end }),
{
    LinterPluginError {
        rule: rule.name.clone(),
        summary: rule.summary.clone(),
        reason: rule.reason.clone(),
        span: Span { start, end },
    }
}

/// Appends one diagnostic per (start, end) pair of `span`, in index order.
pub fn push_diagnostics(rule: &InputQuery, span: &SpanResult, out: &mut Vec<LinterPluginError>)
    requires
        span.wf(),
    ensures
        spans_of(final(out)@) == spans_of(old(out)@) + span.pairs(),
        final(out)@.subrange(0, old(out)@.len() as int) == old(out)@,
        attributed(final(out)@.subrange(old(out)@.len() as int, final(out)@.len() as int), *rule),
        attributed(old(out)@, *rule) ==> attributed(final(out)@, *rule),
{
    let ghost start_out = out@;
    match span {
        SpanResult::Single { start, end } => {
            out.push(diagnostic_at(rule, *start, *end));
            assert(spans_of(out@) =~= spans_of(start_out) + span.pairs());
            assert(out@.subrange(0, start_out.len() as int) =~= start_out);
            assert(out@.subrange(start_out.len() as int, out@.len() as int) =~= seq![out@.last()]);
        },
        SpanResult::Multiple { starts, ends } => {
            let mut i: usize = 0;
            while i < starts.len()
                invariant
                    *span == (SpanResult::Multiple { starts: *starts, ends: *ends }),
                    span.wf(),
                    0 <= i <= starts@.len(),
                    out@.len() == start_out.len() + i,
                    out@.subrange(0, start_out.len() as int) == start_out,
                    spans_of(out@) == spans_of(start_out) + span.pairs().take(i as int),
                    attributed(start_out, *rule) ==> attributed(out@, *rule),
                    attributed(out@.subrange(start_out.len() as int, out@.len() as int), *rule),
                decreases starts@.len() - i,
            {
                let ghost prev = out@;
                out.push(diagnostic_at(rule, starts[i], ends[i]));
                assert(span.pairs().take(i + 1) =~= span.pairs().take(i as int).push(span.pairs()[i as int]));
                assert(spans_of(out@) =~= spans_of(prev).push(span.pairs()[i as int]));
                assert(spans_of(out@) =~= spans_of(start_out) + span.pairs().take(i + 1));
                assert(out@.subrange(0, start_out.len() as int) =~= start_out);
                let ghost tail = out@.subrange(start_out.len() as int, out@.len() as int);
                assert(tail =~= prev.subrange(start_out.len() as int, prev.len() as int).push(out@.last()));
                assert(attributed(tail, *rule)) by {
                    assert forall|k: int| 0 <= k < tail.len() - 1 implies tail[k] == prev.subrange(
                        start_out.len() as int,
                        prev.len() as int,
                    )[k] by {}
                }
                i = i + 1;
            }
            assert(span.pairs().take(i as int) =~= span.pairs());
        },
    }
}

/// The diagnostics for one decoded row: one per (start, end) pair, in index order.
pub fn diagnostics_for(rule: &InputQuery, span: &SpanResult) -> (r: Vec<LinterPluginError>)
    requires
        span.wf(),
    ensures
        spans_of(r@) == span.pairs(),
        attributed(r@, *rule),
{
    let mut out: Vec<LinterPluginError> = Vec::new();
    push_diagnostics(rule, span, &mut out);
    assert(spans_of(Seq::<LinterPluginError>::empty()) =~= Seq::empty());
    out
}

/// The diagnostics of all rows of a rule's query, in row order; stops at the
/// first row whose span fields have the wrong shape, and reports it.
pub fn diagnostics_for_rows(rule: &InputQuery, rows: &Vec<QueryRow>) -> (r: Result<
    Vec<LinterPluginError>,
    PluginRuleError,
>)
    ensures
        match rows_outcome(rows@) {
            Ok(p) => r matches Ok(d) && spans_of(d@) == p && attributed(d@, *rule),
            Err((i, e)) => r == Err::<Vec<LinterPluginError>, PluginRuleError>(
                PluginRuleError::Shape { rule: rule.name, row: i as usize, error: e },
            ),
        },
{
    let mut out: Vec<LinterPluginError> = Vec::new();
    let mut i: usize = 0;
    assert(spans_of(out@) =~= Seq::empty());
    while i < rows.len()
        invariant
            0 <= i <= rows@.len(),
            rows_outcome(rows@.take(i as int)) == Ok::<Seq<(int, int)>, (int, ShapeError)>(spans_of(out@)),
            attributed(out@, *rule),
        decreases rows@.len() - i,
    {
        assert(rows@.take(i + 1).drop_last() =~= rows@.take(i as int));
        match decode_span(&rows[i].span_start, &rows[i].span_end) {
            Ok(span) => {
                push_diagnostics(rule, &span, &mut out);
            },
            Err(error) => {
                proof {
                    lemma_rows_outcome_err_extends(rows@, i + 1);
                }
                assert(rows_outcome(rows@) == Err::<Seq<(int, int)>, (int, ShapeError)>((i as int, error)));
                return Err(PluginRuleError::Shape { rule: rule.name.clone(), row: i, error });
            },
        }
        i = i + 1;
    }
    assert(rows@.take(i as int) =~= rows@);
    Ok(out)
}

} // verus!
