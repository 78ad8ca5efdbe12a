//! The contracts that roles have.

use vstd::prelude::*;

use crate::error::KernelError;
use crate::identity::{ancestor_namespaces, chain, qualified, qualify};
use crate::registry::with_item;
use crate::table::Table;
use crate::text::{same, texts};

verus! {

/// The documents that define roles, by the role's qualified name.
pub struct SpiRegistry {
    defs: Table<String, String>,
}

impl View for SpiRegistry {
    type V = Map<Seq<char>, Seq<char>>;

    closed spec fn view(&self) -> Map<Seq<char>, Seq<char>> {
        self.defs.map()
    }
}

/// The contract that a role has for a plugin in `namespace`, among those from `i` on up the chain.
pub open spec fn defined_from(
    spi: Map<Seq<char>, Seq<char>>,
    links: Seq<Seq<char>>,
    role: Seq<char>,
    i: int,
) -> Option<Seq<char>>
    decreases links.len() - i,
{
    if i < 0 || i >= links.len() {
        None
    } else if spi.contains_key(qualified(links[i], role)) {
        Some(qualified(links[i], role))
    } else {
        defined_from(spi, links, role, i + 1)
    }
}

/// The nearest contract up the chain of `namespace`.
pub open spec fn resolved(
    spi: Map<Seq<char>, Seq<char>>,
    namespace: Seq<char>,
    role: Seq<char>,
) -> Option<Seq<char>> {
    defined_from(spi, chain(namespace), role, 0)
}

/// The key of the contract that a plugin in `namespace` binds to for a role: the nearest that is
/// defined, or one of its own namespace where none is.
pub open spec fn role_key(
    spi: Map<Seq<char>, Seq<char>>,
    namespace: Seq<char>,
    role: Seq<char>,
) -> Seq<char> {
    match resolved(spi, namespace, role) {
        Some(key) => key,
        None => qualified(namespace, role),
    }
}

/// The keys that a plugin in `namespace` binds to for its roles, each once, in their order.
pub open spec fn role_keys(
    spi: Map<Seq<char>, Seq<char>>,
    namespace: Seq<char>,
    roles: Seq<Seq<char>>,
) -> Seq<Seq<char>>
    decreases roles.len(),
{
    if roles.len() == 0 {
        Seq::empty()
    } else {
        with_item(
            role_keys(spi, namespace, roles.drop_last()),
            role_key(spi, namespace, roles.last()),
        )
    }
}

impl SpiRegistry {
    /// No role has two contracts.
    pub closed spec fn wf(&self) -> bool {
        self.defs.wf()
    }

    /// No contracts.
    pub fn new() -> (r: Self)
        ensures
            r.wf(),
            r@ == Map::<Seq<char>, Seq<char>>::empty(),
    {
        SpiRegistry { defs: Table::new() }
    }

    /// How many contracts there are.
    pub fn len(&self) -> (r: usize)
        requires
            self.wf(),
        ensures
            self@.dom().finite(),
            r == self@.dom().len(),
    {
        self.defs.len()
    }

    /// Keeps the document that defines a role, unless its loading failed.
    pub fn register(&mut self, key: &str, json: &str, loaded: Result<(), KernelError>) -> (r: Result<
        (),
        KernelError,
    >)
        requires
            old(self).wf(),
        ensures
            final(self).wf(),
            r == loaded,
            final(self)@ == if loaded is Ok {
                old(self)@.insert(key@, json@)
            } else {
                old(self)@
            },
    {
        if loaded.is_ok() {
            self.defs.insert(key.to_owned(), json.to_owned());
        }
        loaded
    }

    /// Drops the contract of a role, and tells whether there was one.
    pub fn unregister(&mut self, key: &str) -> (r: bool)
        requires
            old(self).wf(),
        ensures
            final(self).wf(),
            r == old(self)@.contains_key(key@),
            final(self)@ == old(self)@.remove(key@),
    {
        let k = key.to_owned();
        let there = self.defs.contains(&k);
        self.defs.remove(&k);
        there
    }

    /// Whether a role has a contract under this key.
    pub fn contains(&self, key: &str) -> (r: bool)
        requires
            self.wf(),
        ensures
            r == self@.contains_key(key@),
    {
        self.defs.contains(&key.to_owned())
    }

    /// The key of the nearest contract up the chain of `namespace`.
    pub fn resolve(&self, namespace: &str, role: &str) -> (r: Option<String>)
        requires
            self.wf(),
        ensures
            r.deep_view() == resolved(self@, namespace@, role@),
    {
        let links = ancestor_namespaces(namespace);
        let ghost views = texts(links@);
        let mut i: usize = 0;
        while i < links.len()
            invariant
                i <= links@.len(),
                self.wf(),
                views == texts(links@),
                views == chain(namespace@),
                resolved(self@, namespace@, role@) == defined_from(
                    self@,
                    views,
                    role@,
                    i as int,
                ),
            decreases links@.len() - i,
        {
            assert(views[i as int] == links@[i as int]@);
            let key = qualify(links[i].as_str(), role);
            if self.defs.contains(&key) {
                return Some(key);
            }
            i += 1;
        }
        None
    }

    /// The keys that a plugin in `namespace` binds to for its roles, each once, in their order.
    pub fn role_keys_for(&self, namespace: &str, roles: &Vec<String>) -> (r: Vec<String>)
        requires
            self.wf(),
        ensures
            r.deep_view() == role_keys(self@, namespace@, roles.deep_view()),
    {
        let ghost views = roles.deep_view();
        let mut keys: Vec<String> = Vec::new();
        assert(keys.deep_view() =~= role_keys(self@, namespace@, views.take(0)));
        let mut i: usize = 0;
        while i < roles.len()
            invariant
                i <= roles@.len(),
                self.wf(),
                views == roles.deep_view(),
                keys.deep_view() == role_keys(self@, namespace@, views.take(i as int)),
            decreases roles@.len() - i,
        {
            proof {
                assert(views.take(i as int + 1).drop_last() =~= views.take(i as int));
                assert(views[i as int] == roles@[i as int]@);
            }
            let key = match self.resolve(namespace, roles[i].as_str()) {
                Some(k) => k,
                None => qualify(namespace, roles[i].as_str()),
            };
            let ghost so_far = keys.deep_view();
            let mut j: usize = 0;
            while j < keys.len() && !same(keys[j].as_str(), key.as_str())
                invariant
                    j <= keys@.len(),
                    so_far == keys.deep_view(),
                    forall|k: int| 0 <= k < j ==> (#[trigger] so_far[k]) != key@,
                decreases keys@.len() - j,
            {
                assert(so_far[j as int] == keys@[j as int]@);
                j += 1;
            }
            if j == keys.len() {
                assert(!so_far.contains(key@));
                let ghost k = key@;
                keys.push(key);
                assert(keys.deep_view() =~= so_far.push(k));
            } else {
                assert(so_far[j as int] == key@);
                assert(so_far.contains(key@));
            }
            i += 1;
        }
        assert(views.take(views.len() as int) =~= views);
        keys
    }
}

} // verus!
