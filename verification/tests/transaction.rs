use color_roles::{BotError, Colour, Guild, Handler, Member, Role};

fn role(id: u64, name: &str, colour: u32, position: i64) -> Role {
    Role { id, name: name.to_string(), colour, position }
}

fn colour(text: &str) -> Colour {
    Colour::parse(text).unwrap()
}

/// The anchor at rank 5, no colour role, two members.
fn fresh_guild() -> Guild {
    Guild {
        roles: vec![role(1, "@everyone", 0, 0), role(2, "colors", 0, 5), role(3, "moderator", 0, 7)],
        members: vec![
            Member { user: 100, roles: vec![1, 3] },
            Member { user: 101, roles: vec![1] },
        ],
    }
}

fn copy(guild: &Guild) -> Guild {
    Guild { roles: guild.roles.clone(), members: guild.members.clone() }
}

fn role_names(guild: &Guild) -> Vec<&str> {
    guild.roles.iter().map(|r| r.name.as_str()).collect()
}

fn held(guild: &Guild, user: u64) -> Vec<u64> {
    guild.member(user).unwrap().roles.clone()
}

#[test]
fn assignment_creates_the_role_and_gives_it() {
    let handler = Handler::new(2.0f32);
    let mut guild = fresh_guild();
    let assigned = guild.assign(&handler, 100, colour("#1A2B3C"), 1000).unwrap();
    assert_eq!(assigned, role(1000, "#1a2b3c", 0x1a2b3c, 5));
    assert_eq!(guild.roles.len(), 4);
    assert_eq!(guild.roles[3], role(1000, "#1a2b3c", 0x1a2b3c, 5));
    assert_eq!(held(&guild, 100), vec![1, 3, 1000]);
    assert_eq!(held(&guild, 101), vec![1]);
    assert!(guild.is_well_formed());
}

#[test]
fn assignment_of_another_colour_replaces_and_collects() {
    let handler = Handler::new(2.0f32);
    let mut guild = fresh_guild();
    guild.assign(&handler, 100, colour("#1a2b3c"), 1000).unwrap();
    let assigned = guild.assign(&handler, 100, colour("#4d4d4d"), 1001).unwrap();
    assert_eq!(assigned, role(1001, "#4d4d4d", 0x4d4d4d, 5));
    assert_eq!(role_names(&guild), vec!["@everyone", "colors", "moderator", "#4d4d4d"]);
    assert_eq!(held(&guild, 100), vec![1, 3, 1001]);
}

#[test]
fn assignment_keeps_a_role_that_another_member_holds() {
    let handler = Handler::new(2.0f32);
    let mut guild = fresh_guild();
    guild.assign(&handler, 100, colour("#1a2b3c"), 1000).unwrap();
    // The role exists: the id offered for a new one is not used.
    let again = guild.assign(&handler, 101, colour("#1a2b3c"), 1001).unwrap();
    assert_eq!(again.id, 1000);
    guild.assign(&handler, 100, colour("#4d4d4d"), 1002).unwrap();
    assert_eq!(
        role_names(&guild),
        vec!["@everyone", "colors", "moderator", "#1a2b3c", "#4d4d4d"]
    );
    assert_eq!(held(&guild, 100), vec![1, 3, 1002]);
    assert_eq!(held(&guild, 101), vec![1, 1000]);
}

#[test]
fn assignment_twice_is_assignment_once() {
    let handler = Handler::new(2.0f32);
    let mut once = fresh_guild();
    once.assign(&handler, 100, colour("#1a2b3c"), 1000).unwrap();
    let mut twice = fresh_guild();
    twice.assign(&handler, 100, colour("#1a2b3c"), 1000).unwrap();
    let again = twice.assign(&handler, 100, colour("#1a2b3c"), 1001).unwrap();
    assert_eq!(again.id, 1000);
    assert_eq!(once, twice);
}

#[test]
fn assignment_fails_without_an_anchor_and_changes_nothing() {
    let handler = Handler::new(2.0f32);
    let mut guild = fresh_guild();
    guild.delete_role(2);
    guild.create_role(role(10, "#111111", 0x111111, 5));
    let before = copy(&guild);
    let result = guild.assign(&handler, 100, colour("#1a2b3c"), 1000);
    assert!(matches!(result, Err(BotError::NoColorRole)));
    assert_eq!(guild, before);
}

#[test]
fn assignment_keeps_a_guild_well_formed() {
    let handler = Handler::new(2.0f32);
    let mut guild = fresh_guild();
    assert!(guild.is_well_formed());
    let mut id = 1000;
    for (user, text) in [(100, "#111111"), (101, "#222222"), (100, "#222222"), (101, "#333333")] {
        assert!(guild.member(user).is_some() && !guild.has_role(id));
        guild.assign(&handler, user, colour(text), id).unwrap();
        assert!(guild.is_well_formed());
        id += 1;
    }
    assert_eq!(role_names(&guild), vec!["@everyone", "colors", "moderator", "#222222", "#333333"]);
}

#[test]
fn assignment_leaves_one_colour_role_however_many_were_held() {
    let handler = Handler::new(2.0f32);
    let mut guild = fresh_guild();
    for (id, name) in [(10, "#111111"), (11, "#222222"), (12, "#AAAAAA"), (13, "#bbbbbb")] {
        guild.create_role(role(id, name, 0, 5));
    }
    guild.members[0].roles = vec![12, 1, 10, 3, 11];
    guild.members[1].roles = vec![1, 11];
    let assigned = guild.assign(&handler, 100, colour("#111111"), 1000).unwrap();
    assert_eq!(assigned.id, 10);
    assert_eq!(held(&guild, 100), vec![1, 3, 10]);
    assert_eq!(guild.colour_roles_among(&held(&guild, 100)), vec![10]);
    assert_eq!(held(&guild, 101), vec![1, 11]);
    assert_eq!(
        role_names(&guild),
        vec!["@everyone", "colors", "moderator", "#111111", "#222222"]
    );
    assert_eq!(handler.cleanup_roles(&guild, 10), Vec::<u64>::new());
}

#[test]
fn collection_deletes_the_orphans_and_nothing_else() {
    let handler = Handler::new(2.0f32);
    let mut guild = fresh_guild();
    for (id, name) in [(10, "#111111"), (11, "#222222"), (12, "#AAAAAA"), (13, "#bbbbbb")] {
        guild.create_role(role(id, name, 0, 5));
    }
    guild.members[1].roles = vec![1, 11];
    let members = guild.members.clone();
    assert_eq!(guild.collect(&handler, 13), vec![10, 12]);
    assert_eq!(
        role_names(&guild),
        vec!["@everyone", "colors", "moderator", "#222222", "#bbbbbb"]
    );
    assert_eq!(guild.members, members);
}

#[test]
fn collection_twice_is_collection_once() {
    let handler = Handler::new(2.0f32);
    let mut guild = fresh_guild();
    guild.create_role(role(10, "#111111", 0, 5));
    guild.create_role(role(11, "#222222", 0, 5));
    guild.collect(&handler, 11);
    let once = copy(&guild);
    assert_eq!(guild.collect(&handler, 11), Vec::<u64>::new());
    assert_eq!(guild, once);
}
