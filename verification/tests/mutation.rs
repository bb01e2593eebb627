use roster::db::{Database, DbError};
use roster::graphql_schema::{Context, MutationRoot, NewMember, QueryRoot, Team};

fn context_with_team_one() -> Context {
    let mut db = Database::new();
    db.insert_team(1, "team 1".to_string())
        .expect("seeding a fresh team id");
    Context { db }
}

fn new_member(name: &str, knockouts: i32, team_id: i32) -> NewMember {
    NewMember {
        name: name.to_string(),
        knockouts,
        team_id,
    }
}

#[test]
fn create_member_returns_the_persisted_row() {
    let mut ctx = context_with_team_one();
    let m = MutationRoot::create_member(&mut ctx, new_member("Alice", 3, 1)).unwrap();
    assert_eq!(m.id, 1);
    assert_eq!(m.name, "Alice");
    assert_eq!(m.knockouts, 3);
    assert_eq!(m.team_id, 1);
    assert_eq!(ctx.db.members.len(), 1);
}

#[test]
fn create_member_assigns_fresh_distinct_ids() {
    let mut ctx = context_with_team_one();
    let a = MutationRoot::create_member(&mut ctx, new_member("Alice", 3, 1)).unwrap();
    let b = MutationRoot::create_member(&mut ctx, new_member("Bob", 0, 1)).unwrap();
    assert_ne!(a.id, b.id);
    for existing in &ctx.db.members {
        if existing.name == "Alice" {
            assert_eq!(existing.id, a.id);
        }
    }
    let ms = QueryRoot::members(&ctx);
    assert_eq!(ms.len(), 2);
    assert!(ms.iter().any(|m| m.id == a.id && m.name == "Alice"));
    assert!(ms.iter().any(|m| m.id == b.id && m.name == "Bob"));
}

#[test]
fn create_member_is_not_idempotent() {
    let mut ctx = context_with_team_one();
    let a = MutationRoot::create_member(&mut ctx, new_member("Alice", 3, 1)).unwrap();
    let b = MutationRoot::create_member(&mut ctx, new_member("Alice", 3, 1)).unwrap();
    assert_ne!(a.id, b.id);
    assert_eq!(ctx.db.members.len(), 2);
}

#[test]
fn created_member_round_trips_through_both_queries() {
    let mut ctx = context_with_team_one();
    let created = MutationRoot::create_member(&mut ctx, new_member("Alice", 3, 1)).unwrap();

    let ms = QueryRoot::members(&ctx);
    let seen = ms.iter().find(|m| m.id == created.id).unwrap();
    assert_eq!(seen.name, "Alice");
    assert_eq!(seen.knockouts, 3);
    assert_eq!(seen.team_id, 1);

    let team = Team {
        id: 1,
        name: "team 1".to_string(),
    };
    let tms = team.members(&ctx);
    let seen = tms.iter().find(|m| m.id == created.id).unwrap();
    assert_eq!(seen.name, "Alice");
    assert_eq!(seen.knockouts, 3);
    assert_eq!(seen.team_id, 1);
}

#[test]
fn create_member_with_unknown_team_fails_and_leaves_no_row() {
    let mut ctx = context_with_team_one();
    let r = MutationRoot::create_member(&mut ctx, new_member("Ghost", 1, 99));
    assert_eq!(r, Err(DbError::ForeignKeyViolation));
    assert_eq!(QueryRoot::members(&ctx).len(), 0);
    assert_eq!(ctx.db.members.len(), 0);

    let r = MutationRoot::create_member(&mut ctx, new_member("Solid", 1, 1));
    assert!(r.is_ok());
    let ms = QueryRoot::members(&ctx);
    assert_eq!(ms.len(), 1);
    assert_eq!(ms[0].name, "Solid");
}

#[test]
fn duplicate_team_id_is_rejected() {
    let mut db = Database::new();
    assert_eq!(db.insert_team(1, "first".to_string()), Ok(()));
    assert_eq!(
        db.insert_team(1, "second".to_string()),
        Err(DbError::DuplicateKey)
    );
    assert_eq!(db.teams.len(), 1);
    assert_eq!(db.teams[0].name, "first");
}

#[test]
fn fresh_store_is_empty_and_knows_no_team() {
    let db = Database::new();
    assert_eq!(db.members.len(), 0);
    assert_eq!(db.teams.len(), 0);
    assert_eq!(db.next_member_id, 1);
    assert!(!db.team_exists(1));
}

#[test]
fn team_exists_after_seeding() {
    let ctx = context_with_team_one();
    assert!(ctx.db.team_exists(1));
    assert!(!ctx.db.team_exists(2));
}

#[test]
fn interleaved_creates_all_land_with_distinct_ids() {
    let mut ctx = context_with_team_one();
    ctx.db
        .insert_team(2, "team 2".to_string())
        .expect("seeding a fresh team id");
    let a = MutationRoot::create_member(&mut ctx, new_member("left", 1, 1)).unwrap();
    let b = MutationRoot::create_member(&mut ctx, new_member("right", 2, 2)).unwrap();
    assert_ne!(a.id, b.id);
    let ms = QueryRoot::members(&ctx);
    assert_eq!(ms.len(), 2);
    assert!(ms.iter().any(|m| m.id == a.id && m.name == "left"));
    assert!(ms.iter().any(|m| m.id == b.id && m.name == "right"));
}
