//! The registry of requests: one record for each status asked for.
//!
//! A record is pending under the id of its request until the reply comes.
//! A result resolves it, for good; the error that says there will never be a
//! result removes it, and nothing is kept in its place. A reply whose id no
//! record is pending under changes nothing. Records stay in the order in
//! which they were begun.

use crate::jsonrpc::{
    export_views, request_line, sends, ExportStatus, ExportStatusView, ImportStatus, ImportStatusView, JsonRpc,
    Method, MethodView, SendError,
};
use crate::text::one_line;
use crate::transport::{Channel, Sender};
use serde_json::Value;
use vstd::prelude::*;

verus! {

/// What a record holds: the id it waits under, or the result that came.
#[derive(Debug, Clone, PartialEq)]
pub enum StatusValue {
    Loading(u64),
    Loaded(String, Value),
}

/// A `StatusValue` with its display string as text.
pub enum StatusValueView {
    Loading(u64),
    Loaded(Seq<char>, Value),
}

impl View for StatusValue {
    type V = StatusValueView;

    open spec fn view(&self) -> StatusValueView {
        match self {
            StatusValue::Loading(id) => StatusValueView::Loading(*id),
            StatusValue::Loaded(display, value) => StatusValueView::Loaded(display@, *value),
        }
    }
}

/// One record: a name that the user may change, and what it holds.
#[derive(Debug, Clone, PartialEq)]
pub struct Status {
    pub name: String,
    pub value: StatusValue,
}

/// A `Status` with its strings as text.
pub struct StatusView {
    pub name: Seq<char>,
    pub value: StatusValueView,
}

impl View for Status {
    type V = StatusView;

    open spec fn view(&self) -> StatusView {
        StatusView { name: self.name@, value: self.value@ }
    }
}

/// What the user can ask of the registry: a new name for the record at an
/// index.
#[derive(Debug, Clone, PartialEq, Eq)]
pub enum Message {
    SetName(usize, String),
}

/// Whether a record is pending under an id.
pub open spec fn awaits(record: StatusView, id: u64) -> bool {
    record.value == StatusValueView::Loading(id)
}

/// The index of the first record at or after `start` that is pending under
/// an id.
pub open spec fn position_from(records: Seq<StatusView>, id: u64, start: int) -> Option<int>
    decreases records.len() - start,
{
    if start < 0 || start >= records.len() {
        None
    } else if awaits(records[start], id) {
        Some(start)
    } else {
        position_from(records, id, start + 1)
    }
}

/// The index of the first record that is pending under an id.
pub open spec fn position(records: Seq<StatusView>, id: u64) -> Option<int> {
    position_from(records, id, 0)
}

/// The records after a result has come for an id: the record pending under
/// it holds the result and keeps its name and place.
pub open spec fn resolved(records: Seq<StatusView>, id: u64, data: ImportStatusView) -> Seq<
    StatusView,
> {
    match position(records, id) {
        Some(i) => records.update(
            i,
            StatusView {
                name: records[i].name,
                value: StatusValueView::Loaded(data.display, data.value),
            },
        ),
        None => records,
    }
}

/// The records after an id has been given up: the record pending under it
/// is gone.
pub open spec fn rejected(records: Seq<StatusView>, id: u64) -> Seq<StatusView> {
    match position(records, id) {
        Some(i) => records.remove(i),
        None => records,
    }
}

/// The records after the one at an index got a new name.
pub open spec fn renamed(records: Seq<StatusView>, index: int, name: Seq<char>) -> Seq<
    StatusView,
> {
    records.update(index, StatusView { name, value: records[index].value })
}

/// The records after a request went out under an id for a name.
pub open spec fn begun(records: Seq<StatusView>, name: Seq<char>, id: u64) -> Seq<StatusView> {
    records.push(StatusView { name, value: StatusValueView::Loading(id) })
}

/// What there is to export: of each resolved record its name and its value,
/// in the order of the records. Pending records are left out.
pub open spec fn exported(records: Seq<StatusView>) -> Seq<ExportStatusView>
    decreases records.len(),
{
    if records.len() == 0 {
        Seq::empty()
    } else {
        let before = exported(records.drop_last());
        match records.last().value {
            StatusValueView::Loaded(_, value) => before.push(
                ExportStatusView { name: records.last().name, value },
            ),
            StatusValueView::Loading(_) => before,
        }
    }
}

/// The records that are left when every pending one is given up: the
/// resolved records, in their order.
pub open spec fn settled(records: Seq<StatusView>) -> Seq<StatusView>
    decreases records.len(),
{
    if records.len() == 0 {
        Seq::empty()
    } else {
        let before = settled(records.drop_last());
        if records.last().value is Loaded {
            before.push(records.last())
        } else {
            before
        }
    }
}

/// The ids under which records are pending rise in the order of the
/// records, so that no two records are pending under one id, and every one
/// of them lies below `next`.
pub open spec fn issued_below(records: Seq<StatusView>, next: int) -> bool {
    &&& forall|i: int, id: u64|
        0 <= i < records.len() && #[trigger] awaits(records[i], id) ==> id < next
    &&& forall|i: int, j: int, first: u64, second: u64|
        0 <= i < j < records.len() && #[trigger] awaits(records[i], first) && #[trigger] awaits(
            records[j],
            second,
        ) ==> first < second
}

/// The views of a run of records.
pub open spec fn status_views(records: Seq<Status>) -> Seq<StatusView> {
    records.map_values(|record: Status| record@)
}

/// `position_from` finds the first record pending under the id, and finds
/// none only where there is none.
pub proof fn lemma_position_from(records: Seq<StatusView>, id: u64, start: int)
    requires
        0 <= start,
    ensures
        match position_from(records, id, start) {
            Some(i) => {
                &&& start <= i < records.len()
                &&& awaits(records[i], id)
                &&& forall|j: int| start <= j < i ==> !awaits(records[j], id)
            },
            None => forall|j: int| start <= j < records.len() ==> !awaits(records[j], id),
        },
    decreases records.len() - start,
{
    if start < records.len() && !awaits(records[start], id) {
        lemma_position_from(records, id, start + 1);
    }
}

/// The registry.
#[derive(Debug)]
pub struct Statuses {
    statuses: Vec<Status>,
}

impl View for Statuses {
    type V = Seq<StatusView>;

    closed spec fn view(&self) -> Seq<StatusView> {
        status_views(self.statuses@)
    }
}

impl Statuses {
    /// A registry without records.
    pub fn new() -> (statuses: Statuses)
        ensures
            statuses@ == Seq::<StatusView>::empty(),
            issued_below(statuses@, 0),
    {
        Statuses { statuses: Vec::new() }
    }

    /// The number of records.
    pub fn len(&self) -> (len: usize)
        ensures
            len == self@.len(),
    {
        self.statuses.len()
    }

    /// The record at an index, if there is one.
    pub fn record(&self, index: usize) -> (r: Option<&Status>)
        ensures
            r is Some <==> index < self@.len(),
            r matches Some(record) ==> record@ == self@[index as int],
    {
        if index < self.statuses.len() {
            Some(&self.statuses[index])
        } else {
            None
        }
    }

    /// Gives the record at an index a new name. What the record holds, and
    /// every other record, stay as they are.
    pub fn set_status_name(&mut self, index: usize, name: String)
        requires
            index < old(self)@.len(),
        ensures
            final(self)@ == renamed(old(self)@, index as int, name@),
            forall|next: int| issued_below(old(self)@, next) ==> issued_below(final(self)@, next),
    {
        let ghost before = self@;
        self.statuses[index].name = name;
        proof {
            assert(self@ =~= renamed(before, index as int, name@));
            assert forall|next: int| issued_below(before, next) implies issued_below(
                self@,
                next,
            ) by {
                lemma_rename_keeps_issued(before, index as int, name@, next);
            }
        }
    }

    /// The index of the record that is pending under an id, if there is one.
    pub fn pending_index(&self, id: u64) -> (r: Option<usize>)
        ensures
            match r {
                Some(i) => position(self@, id) == Some(i as int) && i < self@.len(),
                None => position(self@, id) is None,
            },
    {
        let mut i: usize = 0;
        while i < self.statuses.len()
            invariant
                i <= self.statuses.len(),
                position(self@, id) == position_from(self@, id, i as int),
            decreases self.statuses.len() - i,
        {
            match self.statuses[i].value {
                StatusValue::Loading(pending) => {
                    if pending == id {
                        return Some(i);
                    }
                },
                StatusValue::Loaded(_, _) => {},
            }
            i += 1;
        }
        None
    }

    /// Takes the result that came for an id: the record pending under the id
    /// holds it from now on. Where no record is pending under the id, nothing
    /// changes.
    pub fn set_status_value(&mut self, id: u64, data: ImportStatus)
        ensures
            final(self)@ == resolved(old(self)@, id, data@),
            forall|next: int| issued_below(old(self)@, next) ==> issued_below(final(self)@, next),
    {
        let ghost before = self@;
        match self.pending_index(id) {
            Some(i) => {
                self.statuses[i].value = StatusValue::Loaded(data.display, data.value);
                proof {
                    assert(self@ =~= resolved(before, id, data@));
                }
            },
            None => {},
        }
        proof {
            assert forall|next: int| issued_below(before, next) implies issued_below(
                self@,
                next,
            ) by {
                lemma_resolve_keeps_issued(before, id, data@, next);
            }
        }
    }

    /// Gives up an id: the record pending under it is removed. Where no
    /// record is pending under the id, nothing changes.
    pub fn remove_status(&mut self, id: u64)
        ensures
            final(self)@ == rejected(old(self)@, id),
            forall|next: int| issued_below(old(self)@, next) ==> issued_below(final(self)@, next),
    {
        let ghost before = self@;
        match self.pending_index(id) {
            Some(i) => {
                let _ = self.statuses.remove(i);
                proof {
                    assert(self@ =~= rejected(before, id));
                }
            },
            None => {},
        }
        proof {
            assert forall|next: int| issued_below(before, next) implies issued_below(
                self@,
                next,
            ) by {
                lemma_reject_keeps_issued(before, id, next);
            }
        }
    }

    /// Gives up every id that is still waited under: all pending records are
    /// removed, and the resolved ones stay, in their order. This is for the
    /// moment at which the peer has gone and no reply can come any more.
    pub fn remove_pending(&mut self)
        ensures
            final(self)@ == settled(old(self)@),
            forall|next: int| issued_below(final(self)@, next),
    {
        let ghost before = self@;
        let mut records: Vec<Status> = Vec::new();
        core::mem::swap(&mut self.statuses, &mut records);
        let ghost all = records@;
        for record in it: records
            invariant
                it.seq() == all,
                status_views(all) == before,
                self@ == settled(before.take(it.index() as int)),
        {
            proof {
                assert(before.take(it.index() + 1).drop_last() == before.take(it.index() as int));
                assert(before.take(it.index() + 1).last() == record@);
            }
            match record.value {
                StatusValue::Loaded(_, _) => {
                    proof {
                        assert(status_views(self.statuses@.push(record)) == status_views(
                            self.statuses@,
                        ).push(record@));
                    }
                    self.statuses.push(record);
                },
                StatusValue::Loading(_) => {},
            }
        }
        proof {
            assert(before.take(before.len() as int) == before);
            lemma_settled(before);
        }
    }

    /// Begins a request for a status: sends it through the client, and where
    /// it went out, adds a record that is pending under its id, after all
    /// other records. Where it did not go out, the registry is as before.
    pub fn get_status<S: Sender>(
        &mut self,
        name: String,
        jsonrpc: &mut JsonRpc,
        channel: &mut Channel<S>,
    ) -> (r: Result<u64, SendError>)
        requires
            old(jsonrpc)@ < u64::MAX,
        ensures
            final(jsonrpc)@ == old(jsonrpc)@ + 1,
            final(channel).is_open() == old(channel).is_open(),
            r is Ok ==> one_line(final(channel).taken().last()),
            match r {
                Ok(id) => id == old(jsonrpc)@ && final(self)@ == begun(old(self)@, name@, id),
                Err(e) => e is Transport && final(self)@ == old(self)@,
            },
            sends(
                r,
                old(channel).taken(),
                final(channel).taken(),
                old(channel).is_open(),
                old(channel).unfailing(),
                request_line(old(jsonrpc)@, MethodView::GetStatus),
            ),
            issued_below(old(self)@, old(jsonrpc)@ as int) ==> issued_below(
                final(self)@,
                final(jsonrpc)@ as int,
            ),
    {
        let ghost before = self@;
        match jsonrpc.send(Method::GetStatus, channel) {
            Ok(id) => {
                self.statuses.push(Status { name, value: StatusValue::Loading(id) });
                proof {
                    assert(self@ =~= begun(before, name@, id));
                    if issued_below(before, id as int) {
                        lemma_begin_keeps_issued(before, name@, id, id as int);
                    }
                }
                Ok(id)
            },
            Err(e) => Err(e),
        }
    }

    /// What there is to export: of each resolved record its name and its
    /// value, in the order of the records. The registry is only read.
    pub fn export(&self) -> (entries: Vec<ExportStatus>)
        ensures
            export_views(entries@) == exported(self@),
    {
        let mut entries: Vec<ExportStatus> = Vec::new();
        let mut i: usize = 0;
        while i < self.statuses.len()
            invariant
                i <= self.statuses.len(),
                export_views(entries@) == exported(self@.take(i as int)),
            decreases self.statuses.len() - i,
        {
            proof {
                assert(self@.take(i + 1).drop_last() == self@.take(i as int));
                assert(self@.take(i + 1).last() == self.statuses[i as int]@);
            }
            let record = &self.statuses[i];
            match &record.value {
                StatusValue::Loaded(_, value) => {
                    let entry = ExportStatus { name: record.name.clone(), value: value.clone() };
                    proof {
                        assert(export_views(entries@.push(entry))
                            == export_views(entries@).push(entry@));
                    }
                    entries.push(entry);
                },
                StatusValue::Loading(_) => {},
            }
            i += 1;
        }
        proof {
            assert(self@.take(self.statuses.len() as int) == self@);
        }
        entries
    }
}

/// A new name for a record keeps the ids in order.
pub proof fn lemma_rename_keeps_issued(
    records: Seq<StatusView>,
    index: int,
    name: Seq<char>,
    next: int,
)
    requires
        0 <= index < records.len(),
        issued_below(records, next),
    ensures
        issued_below(renamed(records, index, name), next),
{
    let after = renamed(records, index, name);
    assert forall|i: int, id: u64| 0 <= i < after.len() && #[trigger] awaits(after[i], id) implies id
        < next by {
        assert(awaits(records[i], id));
    }
    assert forall|i: int, j: int, first: u64, second: u64|
        0 <= i < j < after.len() && #[trigger] awaits(after[i], first) && #[trigger] awaits(
            after[j],
            second,
        ) implies first < second by {
        assert(awaits(records[i], first));
        assert(awaits(records[j], second));
    }
}

/// A result keeps the ids in order.
pub proof fn lemma_resolve_keeps_issued(
    records: Seq<StatusView>,
    id: u64,
    data: ImportStatusView,
    next: int,
)
    requires
        issued_below(records, next),
    ensures
        issued_below(resolved(records, id, data), next),
{
    lemma_position_from(records, id, 0);
    let after = resolved(records, id, data);
    assert forall|i: int, other: u64|
        0 <= i < after.len() && #[trigger] awaits(after[i], other) implies other < next by {
        assert(awaits(records[i], other));
    }
    assert forall|i: int, j: int, first: u64, second: u64|
        0 <= i < j < after.len() && #[trigger] awaits(after[i], first) && #[trigger] awaits(
            after[j],
            second,
        ) implies first < second by {
        assert(awaits(records[i], first));
        assert(awaits(records[j], second));
    }
}

/// Giving up an id keeps the ids in order.
pub proof fn lemma_reject_keeps_issued(records: Seq<StatusView>, id: u64, next: int)
    requires
        issued_below(records, next),
    ensures
        issued_below(rejected(records, id), next),
{
    lemma_position_from(records, id, 0);
    let after = rejected(records, id);
    match position(records, id) {
        Some(k) => {
            assert forall|i: int, other: u64|
                0 <= i < after.len() && #[trigger] awaits(after[i], other) implies other
                < next by {
                let from = if i < k {
                    i
                } else {
                    i + 1
                };
                assert(awaits(records[from], other));
            }
            assert forall|i: int, j: int, first: u64, second: u64|
                0 <= i < j < after.len() && #[trigger] awaits(after[i], first)
                    && #[trigger] awaits(after[j], second) implies first < second by {
                let from_i = if i < k {
                    i
                } else {
                    i + 1
                };
                let from_j = if j < k {
                    j
                } else {
                    j + 1
                };
                assert(awaits(records[from_i], first));
                assert(awaits(records[from_j], second));
            }
        },
        None => {},
    }
}

/// A request under an id that lies at or above every id given out before
/// keeps the ids in order, with the bound moved past it.
pub proof fn lemma_begin_keeps_issued(
    records: Seq<StatusView>,
    name: Seq<char>,
    id: u64,
    next: int,
)
    requires
        issued_below(records, next),
        next <= id,
    ensures
        issued_below(begun(records, name, id), id + 1),
{
    let after = begun(records, name, id);
    assert forall|i: int, other: u64|
        0 <= i < after.len() && #[trigger] awaits(after[i], other) implies other < id + 1 by {
        if i < records.len() {
            assert(awaits(records[i], other));
        }
    }
    assert forall|i: int, j: int, first: u64, second: u64|
        0 <= i < j < after.len() && #[trigger] awaits(after[i], first) && #[trigger] awaits(
            after[j],
            second,
        ) implies first < second by {
        assert(awaits(records[i], first));
        if j < records.len() {
            assert(awaits(records[j], second));
        }
    }
}

/// Where the ids are in order, no two records are pending under one id.
pub proof fn lemma_pending_ids_are_unique(records: Seq<StatusView>, next: int, i: int, j: int, id: u64)
    requires
        issued_below(records, next),
        0 <= i < records.len(),
        0 <= j < records.len(),
        awaits(records[i], id),
        awaits(records[j], id),
    ensures
        i == j,
{
}

/// A result for an id that was never given out changes nothing: where every
/// id given out lies below `next`, no record is pending under `next` or
/// anything above it.
pub proof fn lemma_resolve_unissued(
    records: Seq<StatusView>,
    next: int,
    id: u64,
    data: ImportStatusView,
)
    requires
        issued_below(records, next),
        next <= id,
    ensures
        position(records, id) is None,
        resolved(records, id, data) == records,
        rejected(records, id) == records,
{
    lemma_position_from(records, id, 0);
    if position(records, id) is Some {
        assert(awaits(records[position(records, id)->0], id));
    }
}

/// A result for an id under which no record is pending changes nothing.
pub proof fn lemma_resolve_unmatched(records: Seq<StatusView>, id: u64, data: ImportStatusView)
    requires
        forall|i: int| 0 <= i < records.len() ==> !awaits(records[i], id),
    ensures
        resolved(records, id, data) == records,
{
    lemma_position_from(records, id, 0);
}

/// Once an id has been given up, no record is pending under it, and a result
/// that comes for it later changes nothing.
pub proof fn lemma_reject_then_resolve(
    records: Seq<StatusView>,
    next: int,
    id: u64,
    data: ImportStatusView,
)
    requires
        issued_below(records, next),
    ensures
        forall|i: int|
            0 <= i < rejected(records, id).len() ==> !awaits(#[trigger] rejected(records, id)[i], id),
        resolved(rejected(records, id), id, data) == rejected(records, id),
{
    lemma_position_from(records, id, 0);
    let after = rejected(records, id);
    assert forall|i: int| 0 <= i < after.len() implies !awaits(#[trigger] after[i], id) by {
        match position(records, id) {
            Some(k) => {
                if i < k {
                    assert(after[i] == records[i]);
                } else {
                    assert(after[i] == records[i + 1]);
                    assert(awaits(records[k], id));
                    if awaits(records[i + 1], id) {
                        lemma_pending_ids_are_unique(records, next, k, i + 1, id);
                    }
                }
            },
            None => {},
        }
    }
    lemma_resolve_unmatched(after, id, data);
}

/// A resolved record stays resolved: neither a later result nor a later
/// error for any id touches it.
pub proof fn lemma_resolved_is_final(
    records: Seq<StatusView>,
    index: int,
    id: u64,
    data: ImportStatusView,
)
    requires
        0 <= index < records.len(),
        records[index].value is Loaded,
    ensures
        resolved(records, id, data)[index] == records[index],
        position(records, id) != Some(index),
{
    lemma_position_from(records, id, 0);
}

/// Once every pending record has been given up, no record is pending, under
/// whatever id, and what there is to export is what it was.
pub proof fn lemma_settled(records: Seq<StatusView>)
    ensures
        forall|i: int, id: u64|
            0 <= i < settled(records).len() ==> !#[trigger] awaits(settled(records)[i], id),
        forall|next: int| issued_below(settled(records), next),
        exported(settled(records)) == exported(records),
    decreases records.len(),
{
    if records.len() > 0 {
        lemma_settled(records.drop_last());
        let before = settled(records.drop_last());
        if records.last().value is Loaded {
            assert(settled(records).drop_last() == before);
            assert(settled(records).last() == records.last());
        }
    }
}

/// The export of records in a row is the export of the first part followed
/// by the export of the second: exporting keeps the order of the records.
pub proof fn lemma_export_in_order(first: Seq<StatusView>, second: Seq<StatusView>)
    ensures
        exported(first + second) == exported(first) + exported(second),
    decreases second.len(),
{
    if second.len() == 0 {
        assert(first + second == first);
    } else {
        assert((first + second).drop_last() == first + second.drop_last());
        assert((first + second).last() == second.last());
        lemma_export_in_order(first, second.drop_last());
    }
}

/// Pending records are not exported; a resolved record is, under its name
/// and with its value.
pub proof fn lemma_export_of_one(record: StatusView)
    ensures
        record.value is Loading ==> exported(seq![record]).len() == 0,
        record.value matches StatusValueView::Loaded(_, value) ==> exported(seq![record]) == seq![
            ExportStatusView { name: record.name, value },
        ],
{
    reveal_with_fuel(exported, 2);
    assert(seq![record].drop_last() == Seq::<StatusView>::empty());
    assert(seq![record].last() == record);
}

} // verus!
