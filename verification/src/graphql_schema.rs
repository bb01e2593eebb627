//! The object types the service exposes — `Member`, `Team`, the
//! `NewMember` input — and the query and mutation roots, each resolver
//! with its contract over the table model.

use vstd::prelude::*;

use crate::db::{views_of_members, views_of_teams, Database, DbError};
use crate::schema::{
    after_insert, created_row, insert_allowed, lemma_rows_of_team_team_ids, limited,
    rows_of_team, MemberRow, NewMemberRow, TeamRow,
};

verus! {

/// A member of a team, as loaded from a `members` row.
#[derive(Debug, PartialEq)]
pub struct Member {
    pub id: i32,
    pub name: String,
    pub knockouts: i32,
    pub team_id: i32,
}

/// The input of the member-creation mutation.
#[derive(Debug, PartialEq)]
pub struct NewMember {
    pub name: String,
    pub knockouts: i32,
    pub team_id: i32,
}

/// A team of members, as loaded from a `teams` row.
#[derive(Debug, PartialEq)]
pub struct Team {
    pub id: i32,
    pub name: String,
}

impl View for Member {
    type V = MemberRow;

    open spec fn view(&self) -> MemberRow {
        MemberRow {
            id: self.id as int,
            name: self.name@,
            knockouts: self.knockouts as int,
            team_id: self.team_id as int,
        }
    }
}

impl View for NewMember {
    type V = NewMemberRow;

    open spec fn view(&self) -> NewMemberRow {
        NewMemberRow {
            name: self.name@,
            knockouts: self.knockouts as int,
            team_id: self.team_id as int,
        }
    }
}

impl View for Team {
    type V = TeamRow;

    open spec fn view(&self) -> TeamRow {
        TeamRow { id: self.id as int, name: self.name@ }
    }
}

impl Member {
    /// A field-for-field copy: rows are materialized anew per query.
    pub fn duplicate(&self) -> (r: Member)
        ensures
            r@ == self@,
    {
        Member {
            id: self.id,
            name: self.name.clone(),
            knockouts: self.knockouts,
            team_id: self.team_id,
        }
    }

    pub fn id(&self) -> (r: i32)
        ensures
            r as int == self@.id,
    {
        self.id
    }

    pub fn name(&self) -> (r: &str)
        ensures
            r@ == self@.name,
    {
        self.name.as_str()
    }

    pub fn knockouts(&self) -> (r: i32)
        ensures
            r as int == self@.knockouts,
    {
        self.knockouts
    }

    pub fn team_id(&self) -> (r: i32)
        ensures
            r as int == self@.team_id,
    {
        self.team_id
    }
}

impl Team {
    /// A field-for-field copy: rows are materialized anew per query.
    pub fn duplicate(&self) -> (r: Team)
        ensures
            r@ == self@,
    {
        Team { id: self.id, name: self.name.clone() }
    }

    pub fn id(&self) -> (r: i32)
        ensures
            r as int == self@.id,
    {
        self.id
    }

    pub fn name(&self) -> (r: &str)
        ensures
            r@ == self@.name,
    {
        self.name.as_str()
    }

    /// The team's members: `SELECT * FROM members WHERE team_id =
    /// <team.id> LIMIT 100`, one query per parent team. Returns
    /// exactly as many rows as the team has members, up to 100, each
    /// carrying this team's id.
    pub fn members(&self, context: &Context) -> (r: Vec<Member>)
        ensures
            views_of_members(r@) == limited(
                rows_of_team(context.db@.members, self@.id),
                100,
            ),
            forall|k: int|
                0 <= k < r@.len() ==> (#[trigger] r@[k])@ == limited(
                    rows_of_team(context.db@.members, self@.id),
                    100,
                )[k],
            r@.len() == (if rows_of_team(context.db@.members, self@.id).len() <= 100 {
                rows_of_team(context.db@.members, self@.id).len() as int
            } else {
                100
            }),
            forall|k: int| 0 <= k < r@.len() ==> (#[trigger] r@[k]@).team_id == self@.id,
    {
        let r = context.db.select_members_of_team(self.id, 100);
        proof {
            let rows = rows_of_team(context.db@.members, self@.id);
            lemma_rows_of_team_team_ids(context.db@.members, self@.id);
            assert(views_of_members(r@).len() == r@.len());
            assert forall|k: int| 0 <= k < r@.len() implies (#[trigger] r@[k]@).team_id
                == self@.id by {
                assert(views_of_members(r@)[k] == r@[k]@);
                assert(views_of_members(r@)[k] == limited(rows, 100)[k]);
                assert(limited(rows, 100)[k] == rows[k]);
            }
        }
        r
    }
}

/// What every resolver is handed: the database the request works on.
pub struct Context {
    pub db: Database,
}

/// The entry point for queries.
#[derive(Debug, PartialEq, Eq, Structural)]
pub struct QueryRoot;

impl QueryRoot {
    /// `SELECT * FROM members LIMIT 100`: the first 100 rows of the
    /// table, in table order — never more, whatever the table size.
    pub fn members(context: &Context) -> (r: Vec<Member>)
        ensures
            views_of_members(r@) == limited(context.db@.members, 100),
            r@.len() <= 100,
            forall|k: int|
                0 <= k < r@.len() ==> (#[trigger] r@[k])@ == limited(context.db@.members, 100)[k],
            r@.len() == (if context.db@.members.len() <= 100 {
                context.db@.members.len() as int
            } else {
                100
            }),
    {
        let r = context.db.select_members(100);
        proof {
            assert(views_of_members(r@).len() == r@.len());
        }
        r
    }

    /// `SELECT * FROM teams LIMIT 10`: the first 10 rows of the
    /// table, in table order — never more, whatever the table size.
    pub fn teams(context: &Context) -> (r: Vec<Team>)
        ensures
            views_of_teams(r@) == limited(context.db@.teams, 10),
            r@.len() <= 10,
            forall|k: int|
                0 <= k < r@.len() ==> (#[trigger] r@[k])@ == limited(context.db@.teams, 10)[k],
            r@.len() == (if context.db@.teams.len() <= 10 {
                context.db@.teams.len() as int
            } else {
                10
            }),
    {
        let r = context.db.select_teams(10);
        proof {
            assert(views_of_teams(r@).len() == r@.len());
        }
        r
    }
}

/// The entry point for mutations.
#[derive(Debug, PartialEq, Eq, Structural)]
pub struct MutationRoot;

impl MutationRoot {
    /// `createMember`: inserts exactly one row and returns it as
    /// persisted, with a server-assigned id no existing row carries.
    /// An input whose `team_id` references no team violates the
    /// foreign-key constraint: the insert fails and the database is
    /// unchanged.
    pub fn create_member(context: &mut Context, data: NewMember) -> (r: Result<Member, DbError>)
        requires
            old(context).db@.wf(),
            old(context).db@.next_member_id < i32::MAX as int,
        ensures
            final(context).db@.wf(),
            insert_allowed(old(context).db@, data@) ==> {
                &&& r is Ok
                &&& r->Ok_0@ == created_row(old(context).db@, data@)
                &&& final(context).db@ == after_insert(old(context).db@, data@)
                &&& forall|i: int|
                    0 <= i < old(context).db@.members.len() ==> (#[trigger] old(
                        context,
                    ).db@.members[i]).id != r->Ok_0@.id
            },
            !insert_allowed(old(context).db@, data@) ==> (r == Err::<Member, DbError>(
                DbError::ForeignKeyViolation,
            ) && final(context).db@ == old(context).db@),
    {
        context.db.insert_member(&data)
    }
}

/// The executable schema: both root objects, ready to be handed to a
/// request executor.
#[derive(Debug, PartialEq, Eq, Structural)]
pub struct Schema {
    pub query: QueryRoot,
    pub mutation: MutationRoot,
}

/// Builds the schema from its two roots.
pub fn create_schema() -> (s: Schema)
    ensures
        s == (Schema { query: QueryRoot {}, mutation: MutationRoot {} }),
{
    Schema { query: QueryRoot {}, mutation: MutationRoot {} }
}

} // verus!
