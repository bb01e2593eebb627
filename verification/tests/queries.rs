use roster::db::Database;
use roster::graphql_schema::{Context, Member, MutationRoot, NewMember, QueryRoot, Team};

fn seeded_context(team_ids: &[i32]) -> Context {
    let mut db = Database::new();
    for &id in team_ids {
        db.insert_team(id, format!("team {}", id))
            .expect("seeding a fresh team id");
    }
    Context { db }
}

fn create(ctx: &mut Context, name: &str, knockouts: i32, team_id: i32) -> Member {
    assert!(ctx.db.next_member_id < i32::MAX);
    MutationRoot::create_member(
        ctx,
        NewMember {
            name: name.to_string(),
            knockouts,
            team_id,
        },
    )
    .expect("creating a member of an existing team")
}

#[test]
fn members_query_empty_table() {
    let ctx = seeded_context(&[1]);
    assert_eq!(QueryRoot::members(&ctx).len(), 0);
}

#[test]
fn members_query_returns_rows_in_table_order() {
    let mut ctx = seeded_context(&[1]);
    create(&mut ctx, "Alice", 3, 1);
    create(&mut ctx, "Bob", 0, 1);
    let ms = QueryRoot::members(&ctx);
    assert_eq!(ms.len(), 2);
    assert_eq!(ms[0].name, "Alice");
    assert_eq!(ms[1].name, "Bob");
    assert_eq!(ms[0].id, 1);
    assert_eq!(ms[1].id, 2);
}

#[test]
fn members_query_caps_at_100_rows() {
    let mut ctx = seeded_context(&[1]);
    for i in 0..150 {
        create(&mut ctx, &format!("member {}", i), i, 1);
    }
    let ms = QueryRoot::members(&ctx);
    assert_eq!(ms.len(), 100);
    assert_eq!(ms[0].name, "member 0");
    assert_eq!(ms[99].name, "member 99");
}

#[test]
fn teams_query_caps_at_10_rows() {
    let ctx = seeded_context(&[1, 2, 3, 4, 5, 6, 7, 8, 9, 10, 11, 12]);
    let ts = QueryRoot::teams(&ctx);
    assert_eq!(ts.len(), 10);
    assert_eq!(ts[0].id, 1);
    assert_eq!(ts[9].id, 10);
}

#[test]
fn teams_query_returns_all_of_a_small_table() {
    let ctx = seeded_context(&[4, 9]);
    let ts = QueryRoot::teams(&ctx);
    assert_eq!(ts.len(), 2);
    assert_eq!(ts[0].id, 4);
    assert_eq!(ts[0].name, "team 4");
    assert_eq!(ts[1].id, 9);
}

#[test]
fn team_members_returns_min_of_count_and_100() {
    let mut ctx = seeded_context(&[1, 2]);
    for i in 0..5 {
        create(&mut ctx, &format!("one {}", i), 0, 1);
        create(&mut ctx, &format!("two {}", i), 0, 2);
    }
    let team = Team {
        id: 1,
        name: "team 1".to_string(),
    };
    let ms = team.members(&ctx);
    assert_eq!(ms.len(), 5);
    for m in &ms {
        assert_eq!(m.team_id, 1);
    }
    assert_eq!(ms[0].name, "one 0");
    assert_eq!(ms[4].name, "one 4");
}

#[test]
fn team_members_caps_at_100_rows() {
    let mut ctx = seeded_context(&[1, 2]);
    for i in 0..120 {
        create(&mut ctx, &format!("one {}", i), 0, 1);
    }
    create(&mut ctx, "other", 0, 2);
    let team = Team {
        id: 1,
        name: "team 1".to_string(),
    };
    let ms = team.members(&ctx);
    assert_eq!(ms.len(), 100);
    for m in &ms {
        assert_eq!(m.team_id, 1);
    }
    let other = Team {
        id: 2,
        name: "team 2".to_string(),
    };
    assert_eq!(other.members(&ctx).len(), 1);
}

#[test]
fn field_resolvers_project_the_row() {
    let m = Member {
        id: 7,
        name: "Mia".to_string(),
        knockouts: 2,
        team_id: 3,
    };
    assert_eq!(m.id(), 7);
    assert_eq!(m.name(), "Mia");
    assert_eq!(m.knockouts(), 2);
    assert_eq!(m.team_id(), 3);
    let t = Team {
        id: 3,
        name: "reds".to_string(),
    };
    assert_eq!(t.id(), 3);
    assert_eq!(t.name(), "reds");
}
