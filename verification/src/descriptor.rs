//! Principals, access-control entries, and descriptor evaluation.
//!
//! A security descriptor is an ordered list of entries, each pairing a
//! subject with an effect. Evaluation is first-match-wins: entries whose
//! subject does not speak of the principal are skipped, the first covering
//! `Allow` or `Deny` settles the outcome, and a covering `Next` narrows the
//! candidate mask and falls through to the entries after it.

use vstd::prelude::*;

use crate::mask::{narrow, step_mask, submask};
use crate::mask::{lemma_narrow_submask, lemma_narrow_unrestricted, lemma_submask_transitive};

verus! {

/// What a matching entry does to the request.
#[derive(Debug, Clone)]
pub enum Effect {
    /// Grant access, after narrowing the candidate mask by the step, if any.
    Allow(Option<u64>),
    /// Refuse access outright, whatever the candidate mask.
    Deny,
    /// Narrow the candidate mask by the step, if any, and fall through
    /// to the entries that follow.
    Next(Option<u64>),
}

/// Whom an entry speaks of. A `Group` subject names a single group and
/// covers every principal that belongs to it.
#[derive(Debug, Clone)]
pub enum RuleSubject {
    User(String),
    Group(String),
    Everyone,
}

/// One rule of a descriptor: a subject and the effect it has.
#[derive(Debug, Clone)]
pub struct Entry {
    pub subject: RuleSubject,
    pub effect: Effect,
}

/// An ordered access-control list; order decides which entry wins.
#[derive(Debug, Clone)]
pub struct SecurityDescriptor {
    pub acl: Vec<Entry>,
}

/// The principal asking for access: a name and the groups it belongs to.
#[derive(Debug, Clone)]
pub struct AccessToken {
    pub name: String,
    pub groups: Vec<String>,
}

/// The outcome of a descriptor evaluation or of a whole path walk.
#[derive(Copy, Clone, Debug, PartialEq, Eq, Structural)]
pub enum CheckResult {
    /// Access is granted with the capabilities of the carried mask.
    Allow(u64),
    /// Access is explicitly refused.
    Deny,
    /// No rule speaks of the principal.
    NoMatch,
    /// The path names no object: a segment is absent, or the path ends on
    /// a prefix, or runs past an object.
    NotFound,
}

/// Whether the principal belongs to the named group.
pub open spec fn spec_has_group(token: AccessToken, group: Seq<char>) -> bool {
    exists|i: int| 0 <= i < token.groups@.len() && token.groups@[i]@ == group
}

/// Whether a subject speaks of the principal.
pub open spec fn spec_covers(subject: RuleSubject, token: AccessToken) -> bool {
    match subject {
        RuleSubject::User(login) => login@ == token.name@,
        RuleSubject::Group(group) => spec_has_group(token, group@),
        RuleSubject::Everyone => true,
    }
}

/// First-match-wins evaluation of an ordered entry list against a
/// principal and a candidate mask.
pub open spec fn spec_check(acl: Seq<Entry>, token: AccessToken, access: u64) -> CheckResult
    decreases acl.len(),
{
    if acl.len() == 0 {
        CheckResult::NoMatch
    } else if !spec_covers(acl[0].subject, token) {
        spec_check(acl.drop_first(), token, access)
    } else {
        match acl[0].effect {
            Effect::Allow(step) => CheckResult::Allow(narrow(access, step_mask(step))),
            Effect::Deny => CheckResult::Deny,
            Effect::Next(step) => spec_check(acl.drop_first(), token, narrow(access, step_mask(step))),
        }
    }
}

impl RuleSubject {
    /// Whether this subject speaks of the given principal.
    pub fn covers(&self, token: &AccessToken) -> (r: bool)
        ensures
            r == spec_covers(*self, *token),
    {
        match self {
            RuleSubject::User(login) => *login == token.name,
            RuleSubject::Group(group) => has_group(token, group),
            RuleSubject::Everyone => true,
        }
    }
}

/// Whether the principal belongs to the named group.
fn has_group(token: &AccessToken, group: &String) -> (r: bool)
    ensures
        r == spec_has_group(*token, group@),
{
    let mut i: usize = 0;
    while i < token.groups.len()
        invariant
            0 <= i <= token.groups@.len(),
            forall|j: int| 0 <= j < i ==> token.groups@[j]@ != group@,
        decreases token.groups@.len() - i,
    {
        if token.groups[i] == *group {
            return true;
        }
        i += 1;
    }
    false
}

impl SecurityDescriptor {
    /// A descriptor whose one entry caps everyone's access to the given mask.
    pub fn with_capped_access(max_access: u64) -> (r: SecurityDescriptor)
        ensures
            r.acl@.len() == 1,
            r.acl@[0] == (Entry {
                subject: RuleSubject::Everyone,
                effect: Effect::Allow(Some(max_access)),
            }),
            forall|token: AccessToken, access: u64|
                spec_check(r.acl@, token, access) == CheckResult::Allow(narrow(access, max_access)),
    {
        let acl = vec![Entry {
            subject: RuleSubject::Everyone,
            effect: Effect::Allow(Some(max_access)),
        }];
        SecurityDescriptor { acl }
    }

    /// A descriptor whose one entry denies everyone.
    pub fn deny_all() -> (r: SecurityDescriptor)
        ensures
            r.acl@.len() == 1,
            r.acl@[0] == (Entry { subject: RuleSubject::Everyone, effect: Effect::Deny }),
            forall|token: AccessToken, access: u64|
                spec_check(r.acl@, token, access) == CheckResult::Deny,
    {
        let acl = vec![Entry { subject: RuleSubject::Everyone, effect: Effect::Deny }];
        SecurityDescriptor { acl }
    }

    /// A descriptor whose one entry allows everyone with no narrowing.
    pub fn allow_all() -> (r: SecurityDescriptor)
        ensures
            r.acl@.len() == 1,
            r.acl@[0] == (Entry { subject: RuleSubject::Everyone, effect: Effect::Allow(None) }),
            forall|token: AccessToken, access: u64|
                spec_check(r.acl@, token, access) == CheckResult::Allow(access),
    {
        let acl = vec![Entry { subject: RuleSubject::Everyone, effect: Effect::Allow(None) }];
        let r = SecurityDescriptor { acl };
        proof {
            assert forall|token: AccessToken, access: u64|
                spec_check(r.acl@, token, access) == CheckResult::Allow(access) by {
                lemma_narrow_unrestricted(access);
            }
        }
        r
    }

    /// The descriptor with no entries; it matches nobody.
    pub fn empty() -> (r: SecurityDescriptor)
        ensures
            r.acl@ == Seq::<Entry>::empty(),
            forall|token: AccessToken, access: u64|
                spec_check(r.acl@, token, access) == CheckResult::NoMatch,
    {
        let r = SecurityDescriptor { acl: Vec::new() };
        proof {
            assert(r.acl@ =~= Seq::<Entry>::empty());
        }
        r
    }

    /// Appends an entry; it ranks after every entry already present.
    pub fn add_entry(&mut self, entry: Entry)
        ensures
            final(self).acl@ == old(self).acl@.push(entry),
    {
        self.acl.push(entry)
    }

    /// Narrows the candidate mask by one entry's optional step.
    fn update_access(cur: &mut u64, next: Option<u64>)
        ensures
            *final(cur) == narrow(*old(cur), step_mask(next)),
    {
        let next_mask: u64 = match next {
            Option::Some(m) => m,
            Option::None => u64::MAX,
        };
        *cur = *cur & next_mask;
    }

    /// Evaluates this descriptor against a principal, first match wins.
    pub fn check(&self, token: &AccessToken, requested_access: u64) -> (r: CheckResult)
        ensures
            r == spec_check(self.acl@, *token, requested_access),
    {
        let mut provided_access = requested_access;
        let mut i: usize = 0;
        proof {
            assert(self.acl@.skip(0) =~= self.acl@);
        }
        while i < self.acl.len()
            invariant
                0 <= i <= self.acl@.len(),
                spec_check(self.acl@, *token, requested_access) == spec_check(
                    self.acl@.skip(i as int),
                    *token,
                    provided_access,
                ),
            decreases self.acl@.len() - i,
        {
            proof {
                assert(self.acl@.skip(i as int)[0] == self.acl@[i as int]);
                assert(self.acl@.skip(i as int).drop_first() =~= self.acl@.skip(i as int + 1));
            }
            let entry = &self.acl[i];
            if entry.subject.covers(token) {
                match &entry.effect {
                    Effect::Allow(next) => {
                        Self::update_access(&mut provided_access, *next);
                        return CheckResult::Allow(provided_access);
                    },
                    Effect::Deny => {
                        return CheckResult::Deny;
                    },
                    Effect::Next(next) => {
                        Self::update_access(&mut provided_access, *next);
                    },
                }
            }
            i += 1;
        }
        proof {
            assert(self.acl@.skip(self.acl@.len() as int).len() == 0);
        }
        CheckResult::NoMatch
    }
}

impl Default for SecurityDescriptor {
    /// The default descriptor allows everyone with no narrowing.
    fn default() -> (r: SecurityDescriptor)
        ensures
            r.acl@.len() == 1,
            r.acl@[0] == (Entry { subject: RuleSubject::Everyone, effect: Effect::Allow(None) }),
    {
        SecurityDescriptor::allow_all()
    }
}

/// An empty descriptor yields `NoMatch`, whatever the principal and mask.
pub proof fn lemma_empty_check_no_match(d: SecurityDescriptor, token: AccessToken, access: u64)
    requires
        d.acl@.len() == 0,
    ensures
        spec_check(d.acl@, token, access) == CheckResult::NoMatch,
{
}

/// First match wins: when the first entry that covers the principal is a
/// `Deny`, the whole descriptor denies, whatever stands after it.
pub proof fn lemma_first_covering_deny(acl: Seq<Entry>, token: AccessToken, access: u64, k: int)
    requires
        0 <= k < acl.len(),
        spec_covers(acl[k].subject, token),
        acl[k].effect is Deny,
        forall|j: int| 0 <= j < k ==> !spec_covers(#[trigger] acl[j].subject, token),
    ensures
        spec_check(acl, token, access) == CheckResult::Deny,
    decreases k,
{
    if k > 0 {
        let rest = acl.drop_first();
        assert forall|j: int| 0 <= j < k - 1 implies !spec_covers(
            #[trigger] rest[j].subject,
            token,
        ) by {
            assert(rest[j] == acl[j + 1]);
        }
        assert(rest[k - 1] == acl[k]);
        lemma_first_covering_deny(rest, token, access, k - 1);
    }
}

/// A descriptor evaluation never reports a missing object.
pub proof fn lemma_check_not_not_found(acl: Seq<Entry>, token: AccessToken, access: u64)
    ensures
        spec_check(acl, token, access) != CheckResult::NotFound,
    decreases acl.len(),
{
    if acl.len() > 0 {
        if !spec_covers(acl[0].subject, token) {
            lemma_check_not_not_found(acl.drop_first(), token, access);
        } else {
            match acl[0].effect {
                Effect::Next(step) => {
                    lemma_check_not_not_found(
                        acl.drop_first(),
                        token,
                        narrow(access, step_mask(step)),
                    );
                },
                _ => {},
            }
        }
    }
}

/// Whatever a descriptor grants is a submask of the candidate mask it was
/// asked about.
pub proof fn lemma_check_narrows(acl: Seq<Entry>, token: AccessToken, access: u64)
    ensures
        spec_check(acl, token, access) matches CheckResult::Allow(m) ==> submask(m, access),
    decreases acl.len(),
{
    if acl.len() > 0 {
        if !spec_covers(acl[0].subject, token) {
            lemma_check_narrows(acl.drop_first(), token, access);
        } else {
            match acl[0].effect {
                Effect::Allow(step) => {
                    lemma_narrow_submask(access, step_mask(step));
                },
                Effect::Deny => {},
                Effect::Next(step) => {
                    let narrowed = narrow(access, step_mask(step));
                    lemma_check_narrows(acl.drop_first(), token, narrowed);
                    lemma_narrow_submask(access, step_mask(step));
                    match spec_check(acl.drop_first(), token, narrowed) {
                        CheckResult::Allow(m) => {
                            lemma_submask_transitive(m, narrowed, access);
                        },
                        _ => {},
                    }
                },
            }
        }
    }
}

} // verus!
