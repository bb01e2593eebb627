//! The two relations at the specification level: row types, the
//! well-formedness of the whole database, and the meaning of the
//! queries (`LIMIT`, the `team_id` join) and of the insert.

use vstd::prelude::*;

verus! {

/// A row of the `members` table.
#[verifier::ext_equal]
pub ghost struct MemberRow {
    pub id: int,
    pub name: Seq<char>,
    pub knockouts: int,
    pub team_id: int,
}

/// A row of the `teams` table.
#[verifier::ext_equal]
pub ghost struct TeamRow {
    pub id: int,
    pub name: Seq<char>,
}

/// The input of the member-creation mutation: a member row before the
/// database has assigned its id.
#[verifier::ext_equal]
pub ghost struct NewMemberRow {
    pub name: Seq<char>,
    pub knockouts: int,
    pub team_id: int,
}

/// The whole database: both tables and the serial counter from which
/// the next member id is assigned.
#[verifier::ext_equal]
pub ghost struct Tables {
    pub members: Seq<MemberRow>,
    pub teams: Seq<TeamRow>,
    pub next_member_id: int,
}

/// Whether the `teams` table holds a row with id `tid`.
pub open spec fn has_team(ts: Seq<TeamRow>, tid: int) -> bool {
    exists|j: int| 0 <= j < ts.len() && ts[j].id == tid
}

/// Member primary keys are pairwise distinct.
pub open spec fn member_ids_unique(ms: Seq<MemberRow>) -> bool {
    forall|i: int, j: int| 0 <= i < j < ms.len() ==> ms[i].id != ms[j].id
}

/// Every member id is below `bound`.
pub open spec fn member_ids_below(ms: Seq<MemberRow>, bound: int) -> bool {
    forall|i: int| 0 <= i < ms.len() ==> ms[i].id < bound
}

/// Team primary keys are pairwise distinct.
pub open spec fn team_ids_unique(ts: Seq<TeamRow>) -> bool {
    forall|i: int, j: int| 0 <= i < j < ts.len() ==> ts[i].id != ts[j].id
}

/// The foreign-key constraint: every member's `team_id` references an
/// existing team.
pub open spec fn members_reference_teams(ms: Seq<MemberRow>, ts: Seq<TeamRow>) -> bool {
    forall|i: int| 0 <= i < ms.len() ==> has_team(ts, #[trigger] ms[i].team_id)
}

impl Tables {
    /// The invariants that the database itself enforces: unique primary
    /// keys, ids assigned from below the serial counter, and the
    /// foreign key from `members.team_id` to `teams.id`.
    pub open spec fn wf(self) -> bool {
        &&& member_ids_unique(self.members)
        &&& member_ids_below(self.members, self.next_member_id)
        &&& team_ids_unique(self.teams)
        &&& members_reference_teams(self.members, self.teams)
        &&& 1 <= self.next_member_id <= i32::MAX as int
    }
}

/// The first `limit` rows of `rows`, or all of them if there are fewer:
/// the meaning of `SELECT ... LIMIT limit`.
pub open spec fn limited<T>(rows: Seq<T>, limit: int) -> Seq<T> {
    if rows.len() <= limit {
        rows
    } else {
        rows.take(limit)
    }
}

/// The rows of `ms` whose `team_id` is `tid`, in table order: the
/// meaning of `SELECT * FROM members WHERE team_id = tid`.
pub open spec fn rows_of_team(ms: Seq<MemberRow>, tid: int) -> Seq<MemberRow>
    decreases ms.len(),
{
    if ms.len() == 0 {
        Seq::empty()
    } else if ms.last().team_id == tid {
        rows_of_team(ms.drop_last(), tid).push(ms.last())
    } else {
        rows_of_team(ms.drop_last(), tid)
    }
}

/// The row that an insert of `d` creates: the database assigns the next
/// serial id and copies the input fields.
pub open spec fn created_row(t: Tables, d: NewMemberRow) -> MemberRow {
    MemberRow { id: t.next_member_id, name: d.name, knockouts: d.knockouts, team_id: d.team_id }
}

/// Whether an insert of `d` passes the foreign-key constraint.
pub open spec fn insert_allowed(t: Tables, d: NewMemberRow) -> bool {
    has_team(t.teams, d.team_id)
}

/// The database after a successful insert of `d`: exactly one new row,
/// appended, and the serial counter advanced.
pub open spec fn after_insert(t: Tables, d: NewMemberRow) -> Tables {
    Tables {
        members: t.members.push(created_row(t, d)),
        teams: t.teams,
        next_member_id: t.next_member_id + 1,
    }
}

/// Scanning one more row of `ms` extends the join result by that row
/// exactly when its `team_id` matches.
pub proof fn lemma_rows_of_team_take_step(ms: Seq<MemberRow>, tid: int, i: int)
    requires
        0 <= i < ms.len(),
    ensures
        rows_of_team(ms.take(i + 1), tid) == (if ms[i].team_id == tid {
            rows_of_team(ms.take(i), tid).push(ms[i])
        } else {
            rows_of_team(ms.take(i), tid)
        }),
{
    let s = ms.take(i + 1);
    assert(s.drop_last() =~= ms.take(i));
    assert(s.last() == ms[i]);
}

/// Appending a row to the table extends the join result by that row
/// exactly when its `team_id` matches.
pub proof fn lemma_rows_of_team_push(ms: Seq<MemberRow>, tid: int, row: MemberRow)
    ensures
        rows_of_team(ms.push(row), tid) == (if row.team_id == tid {
            rows_of_team(ms, tid).push(row)
        } else {
            rows_of_team(ms, tid)
        }),
{
    let s = ms.push(row);
    assert(s.drop_last() =~= ms);
    assert(s.last() == row);
}

/// Every row that the join selects carries the `team_id` it was
/// selected by.
pub proof fn lemma_rows_of_team_team_ids(ms: Seq<MemberRow>, tid: int)
    ensures
        forall|k: int|
            0 <= k < rows_of_team(ms, tid).len() ==> (#[trigger] rows_of_team(ms, tid)[k]).team_id
                == tid,
    decreases ms.len(),
{
    if ms.len() > 0 {
        lemma_rows_of_team_team_ids(ms.drop_last(), tid);
        let rest = rows_of_team(ms.drop_last(), tid);
        assert forall|k: int| 0 <= k < rows_of_team(ms, tid).len() implies (#[trigger] rows_of_team(
            ms,
            tid,
        )[k]).team_id == tid by {
            if ms.last().team_id == tid {
                if k < rest.len() {
                    assert(rows_of_team(ms, tid)[k] == rest[k]);
                } else {
                    assert(rows_of_team(ms, tid)[k] == ms.last());
                }
            } else {
                assert(rows_of_team(ms, tid)[k] == rest[k]);
            }
        }
    }
}

/// A successful insert preserves every invariant of the database, and
/// the id it assigns differs from the id of every row already present.
pub proof fn lemma_after_insert_wf(t: Tables, d: NewMemberRow)
    requires
        t.wf(),
        insert_allowed(t, d),
        t.next_member_id < i32::MAX as int,
    ensures
        after_insert(t, d).wf(),
        forall|i: int|
            0 <= i < t.members.len() ==> (#[trigger] t.members[i]).id != created_row(t, d).id,
{
    let t2 = after_insert(t, d);
    assert forall|i: int| 0 <= i < t2.members.len() implies has_team(
        t2.teams,
        #[trigger] t2.members[i].team_id,
    ) by {
        if i < t.members.len() {
            assert(t2.members[i] == t.members[i]);
        } else {
            assert(t2.members[i] == created_row(t, d));
        }
    }
}

} // verus!
