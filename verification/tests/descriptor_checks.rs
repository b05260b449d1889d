use acltree::{AccessToken, CheckResult, Effect, Entry, RuleSubject, SecurityDescriptor};

fn token(name: &str, groups: &[&str]) -> AccessToken {
    AccessToken {
        name: name.to_string(),
        groups: groups.iter().map(|g| g.to_string()).collect(),
    }
}

#[test]
fn narrow_by_unrestricted_is_identity() {
    let d = SecurityDescriptor::allow_all();
    assert_eq!(d.check(&token("joe", &[]), 179), CheckResult::Allow(179));
    assert_eq!(d.check(&token("joe", &[]), 0), CheckResult::Allow(0));
    assert_eq!(d.check(&token("joe", &[]), u64::MAX), CheckResult::Allow(u64::MAX));
}

#[test]
fn narrow_is_commutative() {
    let five_then_six = SecurityDescriptor::with_capped_access(5);
    let six_then_five = SecurityDescriptor::with_capped_access(6);
    assert_eq!(five_then_six.check(&token("joe", &[]), 6), CheckResult::Allow(4));
    assert_eq!(six_then_five.check(&token("joe", &[]), 5), CheckResult::Allow(4));
}

#[test]
fn narrow_is_idempotent() {
    let d = SecurityDescriptor::with_capped_access(5);
    assert_eq!(d.check(&token("joe", &[]), 5), CheckResult::Allow(5));
}

#[test]
fn empty_descriptor_is_no_match() {
    let d = SecurityDescriptor::empty();
    assert_eq!(d.check(&token("joe", &["admin"]), 255), CheckResult::NoMatch);
    assert_eq!(d.check(&token("bob", &[]), 0), CheckResult::NoMatch);
}

#[test]
fn first_covering_deny_wins() {
    let mut d = SecurityDescriptor::empty();
    d.add_entry(Entry { subject: RuleSubject::Everyone, effect: Effect::Deny });
    d.add_entry(Entry { subject: RuleSubject::Everyone, effect: Effect::Allow(None) });
    assert_eq!(d.check(&token("joe", &[]), 255), CheckResult::Deny);

    let mut reversed = SecurityDescriptor::empty();
    reversed.add_entry(Entry { subject: RuleSubject::Everyone, effect: Effect::Allow(None) });
    reversed.add_entry(Entry { subject: RuleSubject::Everyone, effect: Effect::Deny });
    assert_eq!(reversed.check(&token("joe", &[]), 255), CheckResult::Allow(255));
}

#[test]
fn next_entries_narrow_before_a_later_allow() {
    let mut d = SecurityDescriptor::empty();
    d.add_entry(Entry { subject: RuleSubject::Everyone, effect: Effect::Next(Some(6)) });
    d.add_entry(Entry { subject: RuleSubject::Everyone, effect: Effect::Allow(None) });
    assert_eq!(d.check(&token("joe", &[]), 255), CheckResult::Allow(6));
}

#[test]
fn next_entries_alone_are_no_match() {
    let mut d = SecurityDescriptor::empty();
    d.add_entry(Entry { subject: RuleSubject::Everyone, effect: Effect::Next(Some(6)) });
    assert_eq!(d.check(&token("joe", &[]), 255), CheckResult::NoMatch);
}

#[test]
fn user_subject_covers_only_that_name() {
    let mut d = SecurityDescriptor::empty();
    d.add_entry(Entry {
        subject: RuleSubject::User("alice".to_string()),
        effect: Effect::Allow(None),
    });
    assert_eq!(d.check(&token("alice", &[]), 7), CheckResult::Allow(7));
    assert_eq!(d.check(&token("bob", &[]), 7), CheckResult::NoMatch);
}

#[test]
fn group_subject_covers_every_member() {
    let mut d = SecurityDescriptor::empty();
    d.add_entry(Entry {
        subject: RuleSubject::Group("admin".to_string()),
        effect: Effect::Allow(None),
    });
    assert_eq!(d.check(&token("alice", &["staff", "admin"]), 7), CheckResult::Allow(7));
    assert_eq!(d.check(&token("bob", &["staff"]), 7), CheckResult::NoMatch);
    assert_eq!(d.check(&token("carol", &[]), 7), CheckResult::NoMatch);
}

#[test]
fn default_descriptor_allows_everyone() {
    let d: SecurityDescriptor = Default::default();
    assert_eq!(d.check(&token("joe", &[]), 42), CheckResult::Allow(42));
}

#[test]
fn capped_descriptor_caps_every_request() {
    let d = SecurityDescriptor::with_capped_access(5);
    assert_eq!(d.check(&token("joe", &[]), 255), CheckResult::Allow(5));
    assert_eq!(d.check(&token("bob", &["admin"]), 3), CheckResult::Allow(1));
}

#[test]
fn deny_all_denies_every_principal() {
    let d = SecurityDescriptor::deny_all();
    assert_eq!(d.check(&token("joe", &["admin"]), 255), CheckResult::Deny);
    assert_eq!(d.check(&token("bob", &[]), 0), CheckResult::Deny);
}
