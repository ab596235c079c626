//! Properties of sequences of reports and exports, proved over the models
//! that the operations' contracts use.
use vstd::prelude::*;
use crate::record::{
    FingerprintView, PairView, font_values, fresh_record, property_pairs, with_pair, with_pairs,
};
use crate::store::{Outcome, StoreView, outcome_for, reported};

verus! {

/// One property report as plain values.
pub struct ReportView {
    pub key: Seq<char>,
    pub value: Seq<char>,
    pub headers: Seq<PairView>,
    pub now: int,
}

/// The reported pairs, in order.
pub open spec fn pairs_of(reports: Seq<ReportView>) -> Seq<PairView> {
    reports.map_values(|r: ReportView| (r.key, r.value))
}

/// The records after `reports` for `id`, applied in order.
pub open spec fn reported_all(m: StoreView, id: Seq<char>, reports: Seq<ReportView>) -> StoreView
    decreases reports.len(),
{
    if reports.len() == 0 {
        m
    } else {
        let r = reports.last();
        reported(reported_all(m, id, reports.drop_last()), id, r.key, r.value, r.headers, r.now)
    }
}

/// The records after `events`, each a report for the identity it names,
/// applied in order.
pub open spec fn reported_mixed(m: StoreView, events: Seq<(Seq<char>, ReportView)>) -> StoreView
    decreases events.len(),
{
    if events.len() == 0 {
        m
    } else {
        let (id, r) = events.last();
        reported(reported_mixed(m, events.drop_last()), id, r.key, r.value, r.headers, r.now)
    }
}

/// The reports among `events` for `id`, in order.
pub open spec fn reports_for(events: Seq<(Seq<char>, ReportView)>, id: Seq<char>) -> Seq<ReportView>
    decreases events.len(),
{
    if events.len() == 0 {
        Seq::empty()
    } else if events.last().0 == id {
        reports_for(events.drop_last(), id).push(events.last().1)
    } else {
        reports_for(events.drop_last(), id)
    }
}

/// A record built by reporting pairs holds the non-font pairs as properties
/// and the font values as fonts, each in reporting order, and keeps the
/// headers and time it was created with.
pub proof fn lemma_pairs_route(headers: Seq<PairView>, now: int, pairs: Seq<PairView>)
    ensures
        with_pairs(fresh_record(headers, now), pairs) == (FingerprintView {
            properties: property_pairs(pairs),
            fonts: font_values(pairs),
            headers,
            timestamp: now,
        }),
    decreases pairs.len(),
{
    if pairs.len() > 0 {
        lemma_pairs_route(headers, now, pairs.drop_last());
    }
}

proof fn lemma_reported_all_record(m: StoreView, id: Seq<char>, reports: Seq<ReportView>)
    requires
        !m.contains_key(id),
        reports.len() > 0,
    ensures
        reported_all(m, id, reports).contains_key(id),
        reported_all(m, id, reports)[id] == with_pairs(
            fresh_record(reports[0].headers, reports[0].now),
            pairs_of(reports),
        ),
        reported_all(m, id, reports).remove(id) == m.remove(id),
    decreases reports.len(),
{
    let rest = reports.drop_last();
    let f = fresh_record(reports[0].headers, reports[0].now);
    assert(pairs_of(reports).drop_last() =~= pairs_of(rest));
    assert(pairs_of(reports).last() == (reports.last().key, reports.last().value));
    assert(with_pairs(f, pairs_of(reports)) == with_pair(
        with_pairs(f, pairs_of(rest)),
        reports.last().key,
        reports.last().value,
    ));
    if rest.len() == 0 {
        assert(pairs_of(rest) =~= Seq::<PairView>::empty());
        assert(with_pairs(f, pairs_of(rest)) == f);
        assert(reported_all(m, id, rest).remove(id) =~= m.remove(id));
    } else {
        lemma_reported_all_record(m, id, rest);
        assert(rest[0] == reports[0]);
    }
    assert(reported_all(m, id, reports).remove(id) =~= reported_all(m, id, rest).remove(id));
}

/// All reports for an identity that has no resident record, made before its
/// export, end in one record: its properties are the reported non-font
/// pairs and its fonts the reported font names, in reporting order; its
/// headers and time are those of the first report. Other identities'
/// records are untouched.
pub proof fn lemma_reports_accumulate(m: StoreView, id: Seq<char>, reports: Seq<ReportView>)
    requires
        !m.contains_key(id),
        reports.len() > 0,
    ensures
        reported_all(m, id, reports).contains_key(id),
        reported_all(m, id, reports)[id] == (FingerprintView {
            properties: property_pairs(pairs_of(reports)),
            fonts: font_values(pairs_of(reports)),
            headers: reports[0].headers,
            timestamp: reports[0].now,
        }),
        reported_all(m, id, reports).remove(id) == m.remove(id),
{
    lemma_reported_all_record(m, id, reports);
    lemma_pairs_route(reports[0].headers, reports[0].now, pairs_of(reports));
}

proof fn lemma_mixed_agrees(m: StoreView, events: Seq<(Seq<char>, ReportView)>, id: Seq<char>)
    ensures
        reported_mixed(m, events).contains_key(id) == reported_all(
            m,
            id,
            reports_for(events, id),
        ).contains_key(id),
        reported_mixed(m, events).contains_key(id) ==> reported_mixed(m, events)[id]
            == reported_all(m, id, reports_for(events, id))[id],
    decreases events.len(),
{
    if events.len() > 0 {
        let rest = events.drop_last();
        lemma_mixed_agrees(m, rest, id);
        if events.last().0 == id {
            let rs = reports_for(events, id);
            assert(rs.drop_last() =~= reports_for(rest, id));
        }
    }
}

/// Reports for several identities, interleaved in any order, keep each
/// identity's record apart: an identity with no resident record at the
/// start ends with one record that holds exactly its own reported pairs,
/// routed and ordered as if it alone had reported, with the headers and
/// time of its own first report. Exporting it leaves every other record
/// as it was.
pub proof fn lemma_interleaved_identities_apart(
    m: StoreView,
    events: Seq<(Seq<char>, ReportView)>,
    id: Seq<char>,
    other: Seq<char>,
)
    requires
        !m.contains_key(id),
        reports_for(events, id).len() > 0,
        other != id,
    ensures
        reported_mixed(m, events).contains_key(id),
        reported_mixed(m, events)[id] == (FingerprintView {
            properties: property_pairs(pairs_of(reports_for(events, id))),
            fonts: font_values(pairs_of(reports_for(events, id))),
            headers: reports_for(events, id)[0].headers,
            timestamp: reports_for(events, id)[0].now,
        }),
        reported_mixed(m, events).remove(id).contains_key(other) == reported_mixed(
            m,
            events,
        ).contains_key(other),
        reported_mixed(m, events).contains_key(other) ==> reported_mixed(m, events).remove(id)[other]
            == reported_mixed(m, events)[other],
{
    lemma_mixed_agrees(m, events, id);
    lemma_reports_accumulate(m, id, reports_for(events, id));
}

/// Of the reports for an identity that has no resident record, the first
/// creates the record and every later one adds to it, so one export is
/// armed; once that export has taken the record, nothing is left to take.
pub proof fn lemma_one_export_per_creation(
    m: StoreView,
    id: Seq<char>,
    reports: Seq<ReportView>,
)
    requires
        !m.contains_key(id),
        reports.len() > 0,
    ensures
        outcome_for(m, id) == Outcome::Created,
        forall|i: int|
            0 < i < reports.len() ==> outcome_for(
                #[trigger] reported_all(m, id, reports.take(i)),
                id,
            ) == Outcome::Existing,
        !reported_all(m, id, reports).remove(id).contains_key(id),
{
    assert forall|i: int| 0 < i < reports.len() implies outcome_for(
        #[trigger] reported_all(m, id, reports.take(i)),
        id,
    ) == Outcome::Existing by {
        lemma_reported_all_record(m, id, reports.take(i));
    }
}

/// A report that arrives after an identity's record was exported creates a
/// new record from that report's headers and time alone.
pub proof fn lemma_fresh_after_export(
    m: StoreView,
    id: Seq<char>,
    key: Seq<char>,
    value: Seq<char>,
    headers: Seq<PairView>,
    now: int,
)
    ensures
        outcome_for(m.remove(id), id) == Outcome::Created,
        reported(m.remove(id), id, key, value, headers, now)[id] == with_pair(
            fresh_record(headers, now),
            key,
            value,
        ),
{
}

} // verus!
