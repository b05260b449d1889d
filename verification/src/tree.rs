//! The resource tree: prefixes, leaf objects, and name lookup.
//!
//! A prefix carries its own descriptor and a set of named children; an
//! object is a terminal leaf with only a descriptor. Adding an item under
//! a name that is already bound replaces the earlier binding, so lookup
//! takes the latest binding of a name.

use vstd::prelude::*;

use crate::descriptor::{Effect, Entry, RuleSubject, SecurityDescriptor};

verus! {

/// A leaf of the tree: a terminal target with only a descriptor.
#[derive(Debug)]
pub struct Object {
    pub security: SecurityDescriptor,
}

/// A child of a prefix: either a further prefix or a leaf object.
#[derive(Debug)]
pub enum Item {
    Object(Object),
    Prefix(Prefix),
}

/// An inner node: its own descriptor, applied before descending, and the
/// bindings of child names to child items, latest binding first in rank.
#[derive(Debug)]
pub struct Prefix {
    pub self_security: SecurityDescriptor,
    pub items: Vec<(String, Item)>,
}

/// When a prefix holds an object bound to this name, a principal whom that
/// object's descriptor allows gets full access to everything beneath the
/// prefix, and the rest of the walk is skipped.
pub const SPECIAL_SEGMENT_SUDO: &'static str = "$ACL.Sudo";

/// The name of the sudo sentinel item.
pub open spec fn sudo_name() -> Seq<char> {
    SPECIAL_SEGMENT_SUDO@
}

/// The child a name denotes among a prefix's bindings: the latest binding
/// of the name wins.
pub open spec fn spec_lookup(items: Seq<(String, Item)>, name: Seq<char>) -> Option<Item>
    decreases items.len(),
{
    if items.len() == 0 {
        None
    } else if items.last().0@ == name {
        Some(items.last().1)
    } else {
        spec_lookup(items.drop_last(), name)
    }
}

/// A tree is sudo-well-formed when every sudo sentinel in it is bound to
/// an object: a sentinel bound to a prefix is a malformed tree.
pub open spec fn sudo_wf(item: Item) -> bool
    decreases item,
{
    match item {
        Item::Object(_) => true,
        Item::Prefix(p) => {
            &&& (spec_lookup(p.items@, sudo_name()) matches Some(it) ==> it is Object)
            &&& forall|i: int| 0 <= i < p.items@.len() ==> sudo_wf(#[trigger] p.items@[i].1)
        },
    }
}

/// What a lookup returns is one of the bindings.
pub proof fn lemma_lookup_is_element(items: Seq<(String, Item)>, name: Seq<char>)
    ensures
        spec_lookup(items, name) matches Some(it) ==> exists|i: int|
            0 <= i < items.len() && items[i].1 == it,
    decreases items.len(),
{
    if items.len() > 0 && items.last().0@ != name {
        lemma_lookup_is_element(items.drop_last(), name);
        match spec_lookup(items.drop_last(), name) {
            Some(it) => {
                let i = choose|i: int| 0 <= i < items.drop_last().len() && items.drop_last()[i].1
                    == it;
                assert(items[i].1 == it);
            },
            None => {},
        }
    }
}

/// Every child found in a sudo-well-formed prefix is itself sudo-well-formed.
pub proof fn lemma_lookup_keeps_sudo_wf(p: Prefix, name: Seq<char>)
    requires
        sudo_wf(Item::Prefix(p)),
    ensures
        spec_lookup(p.items@, name) matches Some(it) ==> sudo_wf(it),
{
    lemma_lookup_is_element(p.items@, name);
}

impl Prefix {
    /// An empty prefix whose own descriptor allows everyone unrestricted.
    pub fn new() -> (r: Prefix)
        ensures
            r.items@.len() == 0,
            r.self_security.acl@.len() == 1,
            r.self_security.acl@[0] == (Entry {
                subject: RuleSubject::Everyone,
                effect: Effect::Allow(None),
            }),
    {
        Prefix { self_security: SecurityDescriptor::allow_all(), items: Vec::new() }
    }

    /// An empty prefix guarded by the given descriptor.
    pub fn with_security(sec: SecurityDescriptor) -> (r: Prefix)
        ensures
            r.items@.len() == 0,
            r.self_security == sec,
    {
        Prefix { self_security: sec, items: Vec::new() }
    }

    /// Replaces this prefix's own descriptor; the children stay.
    pub fn set_self_security(&mut self, sec: SecurityDescriptor)
        ensures
            final(self).self_security == sec,
            final(self).items == old(self).items,
    {
        self.self_security = sec;
    }

    /// Binds a child item to a name; an earlier binding of the same name
    /// is superseded, and every other name keeps its binding.
    pub fn add_item(&mut self, name: &str, item: Item)
        ensures
            final(self).self_security == old(self).self_security,
            final(self).items@.len() == old(self).items@.len() + 1,
            final(self).items@.drop_last() == old(self).items@,
            final(self).items@.last().0@ == name@,
            final(self).items@.last().1 == item,
            spec_lookup(final(self).items@, name@) == Some(item),
            forall|n: Seq<char>|
                n != name@ ==> spec_lookup(final(self).items@, n) == spec_lookup(
                    old(self).items@,
                    n,
                ),
    {
        let key: String = name.to_string();
        self.items.push((key, item));
        proof {
            assert(self.items@.drop_last() =~= old(self).items@);
        }
    }

    /// This prefix's own descriptor.
    pub fn self_security(&self) -> (r: &SecurityDescriptor)
        ensures
            *r == self.self_security,
    {
        &self.self_security
    }

    /// The child bound to a name, if any.
    pub fn get_item(&self, item_name: &str) -> (r: Option<&Item>)
        ensures
            match r {
                Some(it) => spec_lookup(self.items@, item_name@) == Some(*it),
                None => spec_lookup(self.items@, item_name@) is None,
            },
    {
        let key: String = item_name.to_string();
        let mut i: usize = self.items.len();
        proof {
            assert(self.items@.take(i as int) =~= self.items@);
        }
        while i > 0
            invariant
                0 <= i <= self.items@.len(),
                key@ == item_name@,
                spec_lookup(self.items@, item_name@) == spec_lookup(
                    self.items@.take(i as int),
                    item_name@,
                ),
            decreases i,
        {
            i = i - 1;
            proof {
                assert(self.items@.take(i as int + 1).last() == self.items@[i as int]);
                assert(self.items@.take(i as int + 1).drop_last() =~= self.items@.take(i as int));
            }
            let pair = &self.items[i];
            if pair.0 == key {
                return Some(&pair.1);
            }
        }
        None
    }
}

impl Default for Prefix {
    /// The default prefix is empty and allows everyone unrestricted.
    fn default() -> (r: Prefix)
        ensures
            r.items@.len() == 0,
            r.self_security.acl@.len() == 1,
            r.self_security.acl@[0] == (Entry {
                subject: RuleSubject::Everyone,
                effect: Effect::Allow(None),
            }),
    {
        Prefix::new()
    }
}

} // verus!
