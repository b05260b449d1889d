//! The path walk: resolving a principal's request against the tree.
//!
//! The walk starts at the root with the requested mask. At every prefix it
//! applies the prefix's own descriptor, narrowing the mask on `Allow` and
//! failing closed on `Deny` or `NoMatch`; then it consults the sudo
//! sentinel, which on success grants the mask narrowed so far for
//! everything beneath; then it descends by the next segment. A path must
//! end on an object, whose descriptor gives the final word.

use vstd::prelude::*;

use crate::descriptor::{AccessToken, CheckResult};
use crate::descriptor::{lemma_check_narrows, lemma_check_not_not_found, spec_check};
use crate::mask::{narrow, submask, unrestricted};
use crate::mask::{lemma_narrow_submask, lemma_submask_transitive};
use crate::tree::{Item, Prefix, SPECIAL_SEGMENT_SUDO};
use crate::tree::{lemma_lookup_keeps_sudo_wf, spec_lookup, sudo_name, sudo_wf};
use vstd::pervasive::unreached;

verus! {

/// The segments of a path as sequences of characters.
pub open spec fn path_view(path: Seq<&str>) -> Seq<Seq<char>> {
    path.map_values(|s: &str| s@)
}

/// Whether the sudo sentinel of this prefix escalates the principal: the
/// sentinel object's descriptor, asked afresh with the unrestricted mask,
/// allows. The mask that answer carries is discarded; escalation is an
/// independent decision, not part of the capability request.
pub open spec fn spec_sudo_grants(p: Prefix, token: AccessToken) -> bool {
    match spec_lookup(p.items@, sudo_name()) {
        Some(Item::Object(obj)) => spec_check(obj.security.acl@, token, unrestricted()) is Allow,
        _ => false,
    }
}

/// The outcome of the walk from an item, segment by segment: the prefix's
/// own descriptor gates and narrows, the sudo sentinel may cut the walk
/// short, an exhausted path must sit on an object.
pub open spec fn spec_resolve(
    item: Item,
    token: AccessToken,
    path: Seq<Seq<char>>,
    access: u64,
) -> CheckResult
    decreases path.len(),
{
    if path.len() == 0 {
        match item {
            Item::Prefix(_) => CheckResult::NotFound,
            Item::Object(obj) => spec_check(obj.security.acl@, token, access),
        }
    } else {
        match item {
            Item::Object(_) => CheckResult::NotFound,
            Item::Prefix(p) => match spec_check(p.self_security.acl@, token, access) {
                CheckResult::Allow(acc) => {
                    let narrowed = narrow(access, acc);
                    if spec_sudo_grants(p, token) {
                        CheckResult::Allow(narrowed)
                    } else {
                        match spec_lookup(p.items@, path[0]) {
                            None => CheckResult::NotFound,
                            Some(child) => spec_resolve(child, token, path.drop_first(), narrowed),
                        }
                    }
                },
                CheckResult::Deny => CheckResult::Deny,
                CheckResult::NoMatch => CheckResult::NoMatch,
                // a descriptor check never reports a missing object
                CheckResult::NotFound => CheckResult::NotFound,
            },
        }
    }
}

/// Walks the path from the root and decides what access the principal
/// gets: the answer `spec_resolve` gives on the same tree, principal,
/// path and mask.
pub fn access(root: &Prefix, token: &AccessToken, path: &[&str], requested_access: u64) -> (r:
    CheckResult)
    requires
        sudo_wf(Item::Prefix(*root)),
    ensures
        r == spec_resolve(Item::Prefix(*root), *token, path_view(path@), requested_access),
{
    let ghost pv = path_view(path@);
    let mut cur_prefix: &Prefix = root;
    let mut cur_access: u64 = requested_access;
    let mut idx: usize = 0;
    proof {
        assert(pv.skip(0) =~= pv);
    }
    while idx < path.len()
        invariant
            0 <= idx <= path@.len(),
            pv == path_view(path@),
            sudo_wf(Item::Prefix(*cur_prefix)),
            spec_resolve(Item::Prefix(*root), *token, pv, requested_access) == spec_resolve(
                Item::Prefix(*cur_prefix),
                *token,
                pv.skip(idx as int),
                cur_access,
            ),
        decreases path@.len() - idx,
    {
        let segment: &str = path[idx];
        let ghost rest = pv.skip(idx as int);
        proof {
            assert(rest[0] == pv[idx as int]);
            assert(pv[idx as int] == path@[idx as int]@);
            assert(rest.drop_first() =~= pv.skip(idx as int + 1));
        }
        // the prefix's own gate: narrow on Allow, fail closed otherwise
        let ghost access_at_gate: u64 = cur_access;
        let check_res = cur_prefix.self_security().check(token, cur_access);
        let acc: u64 = match check_res {
            CheckResult::Allow(acc) => acc,
            CheckResult::Deny => {
                return CheckResult::Deny;
            },
            CheckResult::NoMatch => {
                return CheckResult::NoMatch;
            },
            CheckResult::NotFound => {
                proof {
                    lemma_check_not_not_found(
                        cur_prefix.self_security.acl@,
                        *token,
                        cur_access,
                    );
                }
                return unreached();
            },
        };
        cur_access = cur_access & acc;
        proof {
            assert(spec_check(cur_prefix.self_security.acl@, *token, access_at_gate)
                == CheckResult::Allow(acc));
            assert(cur_access == narrow(access_at_gate, acc));
        }
        // sudo escalation: an allowed sentinel grants everything beneath
        proof {
            assert(SPECIAL_SEGMENT_SUDO@ == sudo_name());
        }
        match cur_prefix.get_item(SPECIAL_SEGMENT_SUDO) {
            None => {
                proof {
                    assert(!spec_sudo_grants(*cur_prefix, *token));
                }
            },
            Some(item) => {
                match item {
                    Item::Object(obj) => {
                        proof {
                            assert(spec_lookup(cur_prefix.items@, sudo_name())
                                == Some(Item::Object(*obj)));
                        }
                        let sudo_res = obj.security.check(token, u64::MAX);
                        if let CheckResult::Allow(_) = sudo_res {
                            proof {
                                assert(spec_sudo_grants(*cur_prefix, *token));
                            }
                            return CheckResult::Allow(cur_access);
                        }
                        proof {
                            assert(!spec_sudo_grants(*cur_prefix, *token));
                        }
                    },
                    Item::Prefix(_) => {
                        // sudo well-formedness rules a prefix sentinel out
                        proof {
                            assert(false);
                        }
                        return unreached();
                    },
                }
            },
        }
        // descend by the next segment
        match cur_prefix.get_item(segment) {
            None => {
                return CheckResult::NotFound;
            },
            Some(item) => {
                proof {
                    lemma_lookup_keeps_sudo_wf(*cur_prefix, segment@);
                    assert(spec_lookup(cur_prefix.items@, rest[0]) == Some(*item));
                    assert(spec_resolve(Item::Prefix(*cur_prefix), *token, rest, access_at_gate)
                        == spec_resolve(*item, *token, pv.skip(idx as int + 1), cur_access));
                }
                match item {
                    Item::Prefix(next_prefix) => {
                        proof {
                            assert(*item == Item::Prefix(*next_prefix));
                        }
                        cur_prefix = next_prefix;
                    },
                    Item::Object(obj) => {
                        proof {
                            assert(*item == Item::Object(*obj));
                        }
                        if idx + 1 == path.len() {
                            proof {
                                assert(pv.skip(idx as int + 1).len() == 0);
                            }
                            return obj.security.check(token, cur_access);
                        } else {
                            proof {
                                assert(pv.skip(idx as int + 1).len() > 0);
                            }
                            return CheckResult::NotFound;
                        }
                    },
                }
            },
        }
        idx += 1;
    }
    proof {
        assert(pv.skip(path@.len() as int).len() == 0);
    }
    CheckResult::NotFound
}

/// Along any walk the mask only narrows: an `Allow` outcome carries a
/// submask of the mask the walk was asked about, at whatever depth the
/// walk starts.
pub proof fn lemma_resolve_narrows(item: Item, token: AccessToken, path: Seq<Seq<char>>, access: u64)
    ensures
        spec_resolve(item, token, path, access) matches CheckResult::Allow(m) ==> submask(m, access),
    decreases path.len(),
{
    if path.len() == 0 {
        match item {
            Item::Object(obj) => {
                lemma_check_narrows(obj.security.acl@, token, access);
            },
            Item::Prefix(_) => {},
        }
    } else {
        match item {
            Item::Object(_) => {},
            Item::Prefix(p) => {
                match spec_check(p.self_security.acl@, token, access) {
                    CheckResult::Allow(acc) => {
                        let narrowed = narrow(access, acc);
                        lemma_narrow_submask(access, acc);
                        if !spec_sudo_grants(p, token) {
                            match spec_lookup(p.items@, path[0]) {
                                Some(child) => {
                                    lemma_resolve_narrows(child, token, path.drop_first(), narrowed);
                                    match spec_resolve(child, token, path.drop_first(), narrowed) {
                                        CheckResult::Allow(m) => {
                                            lemma_submask_transitive(m, narrowed, access);
                                        },
                                        _ => {},
                                    }
                                },
                                None => {},
                            }
                        }
                    },
                    _ => {},
                }
            },
        }
    }
}

/// Whether the path names an object in the bare tree, descriptors aside.
pub open spec fn path_finds_object(item: Item, path: Seq<Seq<char>>) -> bool
    decreases path.len(),
{
    if path.len() == 0 {
        item is Object
    } else {
        match item {
            Item::Object(_) => false,
            Item::Prefix(p) => match spec_lookup(p.items@, path[0]) {
                None => false,
                Some(child) => path_finds_object(child, path.drop_first()),
            },
        }
    }
}

/// Whether something cuts the walk short before the path question is
/// settled: a prefix on the way refuses (`Deny` or `NoMatch`) or a sudo
/// sentinel escalates.
pub open spec fn spec_walk_preempted(
    item: Item,
    token: AccessToken,
    path: Seq<Seq<char>>,
    access: u64,
) -> bool
    decreases path.len(),
{
    if path.len() == 0 {
        false
    } else {
        match item {
            Item::Object(_) => false,
            Item::Prefix(p) => match spec_check(p.self_security.acl@, token, access) {
                CheckResult::Allow(acc) => spec_sudo_grants(p, token) || (match spec_lookup(
                    p.items@,
                    path[0],
                ) {
                    None => false,
                    Some(child) => spec_walk_preempted(
                        child,
                        token,
                        path.drop_first(),
                        narrow(access, acc),
                    ),
                }),
                _ => true,
            },
        }
    }
}

/// When nothing cuts the walk short, the outcome is `NotFound` exactly
/// when the path names no object: a segment is absent, or the path ends
/// on a prefix, or runs past an object.
pub proof fn lemma_not_found_iff_absent(
    item: Item,
    token: AccessToken,
    path: Seq<Seq<char>>,
    access: u64,
)
    requires
        !spec_walk_preempted(item, token, path, access),
    ensures
        spec_resolve(item, token, path, access) == CheckResult::NotFound <==> !path_finds_object(
            item,
            path,
        ),
    decreases path.len(),
{
    if path.len() == 0 {
        match item {
            Item::Object(obj) => {
                lemma_check_not_not_found(obj.security.acl@, token, access);
            },
            Item::Prefix(_) => {},
        }
    } else {
        match item {
            Item::Object(_) => {},
            Item::Prefix(p) => {
                match spec_check(p.self_security.acl@, token, access) {
                    CheckResult::Allow(acc) => {
                        match spec_lookup(p.items@, path[0]) {
                            Some(child) => {
                                lemma_not_found_iff_absent(
                                    child,
                                    token,
                                    path.drop_first(),
                                    narrow(access, acc),
                                );
                            },
                            None => {},
                        }
                    },
                    _ => {},
                }
            },
        }
    }
}

/// The walk reports `NotFound` only when the path truly names no object:
/// a segment is absent, or the path ends on a prefix, or runs past an
/// object.
pub proof fn lemma_not_found_only_when_absent(
    item: Item,
    token: AccessToken,
    path: Seq<Seq<char>>,
    access: u64,
)
    ensures
        spec_resolve(item, token, path, access) == CheckResult::NotFound ==> !path_finds_object(
            item,
            path,
        ),
    decreases path.len(),
{
    if path.len() == 0 {
        match item {
            Item::Object(obj) => {
                lemma_check_not_not_found(obj.security.acl@, token, access);
            },
            Item::Prefix(_) => {},
        }
    } else {
        match item {
            Item::Object(_) => {},
            Item::Prefix(p) => {
                lemma_check_not_not_found(p.self_security.acl@, token, access);
                match spec_check(p.self_security.acl@, token, access) {
                    CheckResult::Allow(acc) => {
                        if !spec_sudo_grants(p, token) {
                            match spec_lookup(p.items@, path[0]) {
                                Some(child) => {
                                    lemma_not_found_only_when_absent(
                                        child,
                                        token,
                                        path.drop_first(),
                                        narrow(access, acc),
                                    );
                                },
                                None => {},
                            }
                        }
                    },
                    _ => {},
                }
            },
        }
    }
}

} // verus!
