//! The guarantees that hold across operations, stated over the table
//! model and proved once and for all.

use vstd::prelude::*;

use crate::schema::{
    after_insert, created_row, insert_allowed, lemma_after_insert_wf, lemma_rows_of_team_push,
    limited, rows_of_team, NewMemberRow, Tables,
};

verus! {

/// Round trip: a member created into a table of fewer than 100 rows
/// appears, with the very fields of its input and the id the insert
/// assigned, at the end of the `members` query result; and, while its
/// team has fewer than 100 members, at the end of its team's
/// `members` field as well.
pub proof fn lemma_created_member_visible(t: Tables, d: NewMemberRow)
    requires
        t.wf(),
        insert_allowed(t, d),
        t.next_member_id < i32::MAX as int,
        t.members.len() < 100,
        rows_of_team(t.members, d.team_id).len() < 100,
    ensures
        ({
            let row = created_row(t, d);
            let t2 = after_insert(t, d);
            &&& limited(t2.members, 100).len() == t.members.len() + 1
            &&& limited(t2.members, 100).last() == row
            &&& limited(t2.members, 100).contains(row)
            &&& rows_of_team(t2.members, d.team_id) == rows_of_team(t.members, d.team_id).push(
                row,
            )
            &&& limited(rows_of_team(t2.members, d.team_id), 100).last() == row
            &&& limited(rows_of_team(t2.members, d.team_id), 100).contains(row)
        }),
{
    let row = created_row(t, d);
    let t2 = after_insert(t, d);
    lemma_rows_of_team_push(t.members, d.team_id, row);
    assert(limited(t2.members, 100) == t2.members);
    assert(t2.members.last() == row);
    assert(t2.members.contains(row)) by {
        assert(t2.members[t.members.len() as int] == row);
    }
    let rows2 = rows_of_team(t2.members, d.team_id);
    assert(limited(rows2, 100) == rows2);
    assert(rows2.contains(row)) by {
        assert(rows2.last() == row);
        assert(rows2[rows2.len() - 1] == row);
    }
}

/// Two inserts with valid inputs, run one after the other in either
/// order a database could serialize them in, both succeed: the ids
/// they assign differ, neither row is lost, and the table grows by
/// exactly two rows.
pub proof fn lemma_two_inserts_distinct(t: Tables, d1: NewMemberRow, d2: NewMemberRow)
    requires
        t.wf(),
        insert_allowed(t, d1),
        insert_allowed(t, d2),
        t.next_member_id + 1 < i32::MAX as int,
    ensures
        ({
            let r1 = created_row(t, d1);
            let t1 = after_insert(t, d1);
            let r2 = created_row(t1, d2);
            let t2 = after_insert(t1, d2);
            &&& insert_allowed(t1, d2)
            &&& t1.next_member_id < i32::MAX as int
            &&& r1.id != r2.id
            &&& t2.members.contains(r1)
            &&& t2.members.contains(r2)
            &&& t2.members.len() == t.members.len() + 2
            &&& t2.wf()
        }),
{
    let r1 = created_row(t, d1);
    let t1 = after_insert(t, d1);
    let r2 = created_row(t1, d2);
    let t2 = after_insert(t1, d2);
    lemma_after_insert_wf(t, d1);
    lemma_after_insert_wf(t1, d2);
    assert(t2.members.contains(r1)) by {
        assert(t2.members[t.members.len() as int] == r1);
    }
    assert(t2.members.contains(r2)) by {
        assert(t2.members[t1.members.len() as int] == r2);
    }
}

} // verus!
