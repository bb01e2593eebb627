//! The store behind the resolvers: both tables held in memory, with
//! the selects and inserts the resolvers issue, each proved against
//! the table model in `schema`.

use vstd::prelude::*;

use crate::graphql_schema::{Member, NewMember, Team};
use crate::schema::{
    after_insert, created_row, has_team, insert_allowed, lemma_after_insert_wf,
    lemma_rows_of_team_take_step, limited, rows_of_team, MemberRow, Tables, TeamRow,
};

verus! {

/// The contents of a `Vec` of members, as rows.
pub open spec fn views_of_members(ms: Seq<Member>) -> Seq<MemberRow> {
    ms.map_values(|m: Member| m@)
}

/// The contents of a `Vec` of teams, as rows.
pub open spec fn views_of_teams(ts: Seq<Team>) -> Seq<TeamRow> {
    ts.map_values(|t: Team| t@)
}

/// Appending a member to the vector appends its row to the contents.
pub proof fn lemma_views_of_members_push(ms: Seq<Member>, m: Member)
    ensures
        views_of_members(ms.push(m)) =~= views_of_members(ms).push(m@),
{
}

/// Appending a team to the vector appends its row to the contents.
pub proof fn lemma_views_of_teams_push(ts: Seq<Team>, t: Team)
    ensures
        views_of_teams(ts.push(t)) =~= views_of_teams(ts).push(t@),
{
}

/// Why a statement failed: the constraint it violated.
#[derive(Debug, Clone, Copy, PartialEq, Eq, Structural)]
pub enum DbError {
    /// An insert referenced a `team_id` with no matching team.
    ForeignKeyViolation,
    /// An insert reused an existing primary key.
    DuplicateKey,
}

/// The database: the `members` and `teams` tables and the serial
/// counter from which member ids are assigned.
pub struct Database {
    pub members: Vec<Member>,
    pub teams: Vec<Team>,
    pub next_member_id: i32,
}

impl View for Database {
    type V = Tables;

    open spec fn view(&self) -> Tables {
        Tables {
            members: views_of_members(self.members@),
            teams: views_of_teams(self.teams@),
            next_member_id: self.next_member_id as int,
        }
    }
}

impl Database {
    /// An empty database, ready to be seeded with teams.
    pub fn new() -> (db: Database)
        ensures
            db@.wf(),
            db@.members.len() == 0,
            db@.teams.len() == 0,
            db@.next_member_id == 1,
    {
        let db = Database { members: Vec::new(), teams: Vec::new(), next_member_id: 1 };
        proof {
            assert(views_of_members(db.members@) =~= Seq::<MemberRow>::empty());
            assert(views_of_teams(db.teams@) =~= Seq::<TeamRow>::empty());
        }
        db
    }

    /// Whether a team with id `tid` exists.
    pub fn team_exists(&self, tid: i32) -> (b: bool)
        ensures
            b == has_team(self@.teams, tid as int),
    {
        let ghost ts = self@.teams;
        let mut i: usize = 0;
        while i < self.teams.len()
            invariant
                i <= self.teams.len(),
                ts == self@.teams,
                ts.len() == self.teams.len(),
                forall|k: int| 0 <= k < i ==> (#[trigger] ts[k]).id != tid as int,
            decreases self.teams.len() - i,
        {
            proof {
                assert(ts[i as int] == self.teams@[i as int]@);
            }
            if self.teams[i].id == tid {
                proof {
                    assert(ts[i as int].id == tid as int);
                }
                return true;
            }
            i += 1;
        }
        false
    }

    /// `SELECT * FROM teams LIMIT limit`: the first rows of the table,
    /// in table order.
    pub fn select_teams(&self, limit: usize) -> (r: Vec<Team>)
        ensures
            views_of_teams(r@) == limited(self@.teams, limit as int),
            r@.len() <= limit,
            forall|k: int|
                0 <= k < r@.len() ==> (#[trigger] r@[k])@ == limited(self@.teams, limit as int)[k],
    {
        let ghost all = self@.teams;
        proof {
            assert(all.len() == self.teams@.len());
        }
        let n = self.teams.len();
        let count = if n <= limit {
            n
        } else {
            limit
        };
        let mut out: Vec<Team> = Vec::new();
        let mut i: usize = 0;
        while i < count
            invariant
                i <= count <= self.teams.len(),
                count <= limit,
                all == self@.teams,
                all.len() == self.teams.len(),
                count == (if all.len() <= limit as int {
                    all.len() as int
                } else {
                    limit as int
                }),
                out@.len() == i,
                views_of_teams(out@) =~= all.take(i as int),
            decreases count - i,
        {
            let ghost prev = out@;
            let t = self.teams[i].duplicate();
            out.push(t);
            proof {
                lemma_views_of_teams_push(prev, t);
                assert(t@ == all[i as int]);
                assert(all.take(i as int).push(all[i as int]) =~= all.take(i as int + 1));
            }
            i += 1;
        }
        proof {
            if all.len() <= limit as int {
                assert(all.take(all.len() as int) =~= all);
            }
            assert(views_of_teams(out@) == limited(all, limit as int));
            assert forall|k: int| 0 <= k < out@.len() implies (#[trigger] out@[k])@ == limited(
                all,
                limit as int,
            )[k] by {
                assert(views_of_teams(out@)[k] == out@[k]@);
            }
        }
        out
    }

    /// `SELECT * FROM members LIMIT limit`: the first rows of the
    /// table, in table order.
    pub fn select_members(&self, limit: usize) -> (r: Vec<Member>)
        ensures
            views_of_members(r@) == limited(self@.members, limit as int),
            r@.len() <= limit,
            forall|k: int|
                0 <= k < r@.len() ==> (#[trigger] r@[k])@ == limited(
                    self@.members,
                    limit as int,
                )[k],
    {
        let ghost all = self@.members;
        proof {
            assert(all.len() == self.members@.len());
        }
        let n = self.members.len();
        let count = if n <= limit {
            n
        } else {
            limit
        };
        let mut out: Vec<Member> = Vec::new();
        let mut i: usize = 0;
        while i < count
            invariant
                i <= count <= self.members.len(),
                count <= limit,
                all == self@.members,
                all.len() == self.members.len(),
                count == (if all.len() <= limit as int {
                    all.len() as int
                } else {
                    limit as int
                }),
                out@.len() == i,
                views_of_members(out@) =~= all.take(i as int),
            decreases count - i,
        {
            let ghost prev = out@;
            let m = self.members[i].duplicate();
            out.push(m);
            proof {
                lemma_views_of_members_push(prev, m);
                assert(m@ == all[i as int]);
                assert(all.take(i as int).push(all[i as int]) =~= all.take(i as int + 1));
            }
            i += 1;
        }
        proof {
            if all.len() <= limit as int {
                assert(all.take(all.len() as int) =~= all);
            }
            assert(views_of_members(out@) == limited(all, limit as int));
            assert forall|k: int| 0 <= k < out@.len() implies (#[trigger] out@[k])@ == limited(
                all,
                limit as int,
            )[k] by {
                assert(views_of_members(out@)[k] == out@[k]@);
            }
        }
        out
    }

    /// `SELECT * FROM members WHERE team_id = tid LIMIT limit`: the
    /// first matching rows, in table order.
    pub fn select_members_of_team(&self, tid: i32, limit: usize) -> (r: Vec<Member>)
        ensures
            views_of_members(r@) == limited(rows_of_team(self@.members, tid as int), limit as int),
            r@.len() <= limit,
            forall|k: int|
                0 <= k < r@.len() ==> (#[trigger] r@[k])@ == limited(
                    rows_of_team(self@.members, tid as int),
                    limit as int,
                )[k],
    {
        let ghost all = self@.members;
        let mut out: Vec<Member> = Vec::new();
        let mut i: usize = 0;
        while i < self.members.len()
            invariant
                i <= self.members.len(),
                all == self@.members,
                all.len() == self.members.len(),
                out@.len() <= limit,
                views_of_members(out@) =~= limited(
                    rows_of_team(all.take(i as int), tid as int),
                    limit as int,
                ),
            decreases self.members.len() - i,
        {
            let ghost before = rows_of_team(all.take(i as int), tid as int);
            proof {
                lemma_rows_of_team_take_step(all, tid as int, i as int);
                assert(all[i as int] == self.members@[i as int]@);
                assert(views_of_members(out@).len() == out@.len());
            }
            if self.members[i].team_id == tid && out.len() < limit {
                let ghost prev = out@;
                let m = self.members[i].duplicate();
                out.push(m);
                proof {
                    lemma_views_of_members_push(prev, m);
                    assert(before.len() < limit as int);
                    assert(limited(before, limit as int) == before);
                    assert(rows_of_team(all.take(i as int + 1), tid as int) == before.push(
                        all[i as int],
                    ));
                    assert(limited(before.push(all[i as int]), limit as int) == before.push(
                        all[i as int],
                    ));
                }
            } else if self.members[i].team_id == tid {
                proof {
                    assert(out@.len() == limit as int);
                    assert(before.len() >= limit as int);
                    assert(rows_of_team(all.take(i as int + 1), tid as int) == before.push(
                        all[i as int],
                    ));
                    assert(before.push(all[i as int]).take(limit as int) =~= limited(
                        before,
                        limit as int,
                    ));
                }
            } else {
                proof {
                    assert(rows_of_team(all.take(i as int + 1), tid as int) == before);
                }
            }
            i += 1;
        }
        proof {
            assert(all.take(all.len() as int) =~= all);
            assert forall|k: int| 0 <= k < out@.len() implies (#[trigger] out@[k])@ == limited(
                rows_of_team(all, tid as int),
                limit as int,
            )[k] by {
                assert(views_of_members(out@)[k] == out@[k]@);
            }
        }
        out
    }

    /// `INSERT INTO teams`: adds a team under a caller-chosen primary
    /// key, or reports the key as taken. Teams are created outside the
    /// service; this is how its store is seeded.
    pub fn insert_team(&mut self, id: i32, name: String) -> (r: Result<(), DbError>)
        requires
            old(self)@.wf(),
        ensures
            final(self)@.wf(),
            has_team(old(self)@.teams, id as int) ==> (r == Err::<(), DbError>(
                DbError::DuplicateKey,
            ) && final(self)@ == old(self)@),
            !has_team(old(self)@.teams, id as int) ==> (r == Ok::<(), DbError>(())
                && final(self)@ == (Tables {
                teams: old(self)@.teams.push(TeamRow { id: id as int, name: name@ }),
                ..old(self)@
            })),
    {
        if self.team_exists(id) {
            return Err(DbError::DuplicateKey);
        }
        let ghost before = self@;
        let ghost prev_teams = self.teams@;
        let t = Team { id, name };
        let ghost tv = t;
        self.teams.push(t);
        proof {
            lemma_views_of_teams_push(prev_teams, tv);
            assert(tv@ == TeamRow { id: id as int, name: tv.name@ });
            assert(self@ =~= (Tables {
                teams: before.teams.push(TeamRow { id: id as int, name: name@ }),
                ..before
            }));
            let now = self@;
            assert forall|i: int| 0 <= i < now.members.len() implies has_team(
                now.teams,
                (#[trigger] now.members[i]).team_id,
            ) by {
                let j = choose|j: int|
                    0 <= j < before.teams.len() && before.teams[j].id == before.members[i].team_id;
                assert(now.teams[j].id == now.members[i].team_id);
            }
            assert forall|i: int, j: int| 0 <= i < j < now.teams.len() implies now.teams[i].id
                != now.teams[j].id by {
                if j == now.teams.len() - 1 {
                    assert(!has_team(before.teams, id as int));
                    assert(before.teams[i].id != id as int);
                }
            }
        }
        Ok(())
    }

    /// `INSERT INTO members`: checks the foreign key as the database
    /// would, assigns the next serial id, appends exactly one row, and
    /// returns the row as persisted.
    pub fn insert_member(&mut self, data: &NewMember) -> (r: Result<Member, DbError>)
        requires
            old(self)@.wf(),
            old(self)@.next_member_id < i32::MAX as int,
        ensures
            final(self)@.wf(),
            insert_allowed(old(self)@, data@) ==> {
                &&& r is Ok
                &&& r->Ok_0@ == created_row(old(self)@, data@)
                &&& final(self)@ == after_insert(old(self)@, data@)
                &&& forall|i: int|
                    0 <= i < old(self)@.members.len() ==> (#[trigger] old(self)@.members[i]).id
                        != r->Ok_0@.id
            },
            !insert_allowed(old(self)@, data@) ==> (r == Err::<Member, DbError>(
                DbError::ForeignKeyViolation,
            ) && final(self)@ == old(self)@),
    {
        if !self.team_exists(data.team_id) {
            return Err(DbError::ForeignKeyViolation);
        }
        let ghost before = self@;
        let ghost prev_members = self.members@;
        let id = self.next_member_id;
        let row = Member {
            id,
            name: data.name.clone(),
            knockouts: data.knockouts,
            team_id: data.team_id,
        };
        let persisted = row.duplicate();
        let ghost rowv = row;
        self.members.push(row);
        self.next_member_id = id + 1;
        proof {
            lemma_after_insert_wf(before, data@);
            lemma_views_of_members_push(prev_members, rowv);
            assert(rowv@ == created_row(before, data@));
            assert(self@ =~= after_insert(before, data@));
        }
        Ok(persisted)
    }
}

} // verus!
