//! The step bodies that are compiled into the host, by the name under which a manifest refers to
//! them.
//!
//! A body has a name of the form `<owner>.<plugin>.<step>`. The owner `gwead` is the engine itself:
//! a table takes no `gwead.` name from anybody else. What a body is does not matter here; it is a
//! type parameter.

use vstd::prelude::*;

use crate::duplicate::Duplicate;
use crate::table::Table;
use crate::text::{cat3, starts_with};

verus! {

/// What the name of a body begins with that the engine ships.
pub open spec fn is_reserved(name: Seq<char>) -> bool {
    "gwead."@.is_prefix_of(name)
}

/// A body under its name.
#[derive(Debug, Clone, Copy)]
pub struct NativeStepImplEntry<B> {
    name: &'static str,
    impl_: B,
    kernel_owned: bool,
}

/// Why a table does not take a body.
#[derive(Debug)]
#[non_exhaustive]
pub enum NativeImplCollision {
    Duplicate { name: String },
    Reserved { name: String },
}

/// What a [`NativeImplCollision`] stands for.
pub enum CollisionView {
    Duplicate { name: Seq<char> },
    Reserved { name: Seq<char> },
}

impl View for NativeImplCollision {
    type V = CollisionView;

    open spec fn view(&self) -> CollisionView {
        match self {
            NativeImplCollision::Duplicate { name } => CollisionView::Duplicate { name: name@ },
            NativeImplCollision::Reserved { name } => CollisionView::Reserved { name: name@ },
        }
    }
}

impl CollisionView {
    /// The error in words.
    pub open spec fn text(self) -> Seq<char> {
        match self {
            CollisionView::Duplicate { name } => "two crates registered native step impl '"@ + name
                + "' via inventory::submit!; pick distinct names (convention: <owner>.<plugin>.<step> — see gwead::kernel::native_impls module docs for the full rule)"@,
            CollisionView::Reserved { name } => "native step impl '"@ + name
                + "' uses the reserved `gwead.` prefix, which only the engine may submit; name it <your-namespace>.<plugin>.<step>"@,
        }
    }
}

impl NativeImplCollision {
    /// The error in words.
    pub fn message(&self) -> (r: String)
        ensures
            r@ == self@.text(),
    {
        match self {
            NativeImplCollision::Duplicate { name } => cat3(
                "two crates registered native step impl '",
                name.as_str(),
                "' via inventory::submit!; pick distinct names (convention: <owner>.<plugin>.<step> — see gwead::kernel::native_impls module docs for the full rule)",
            ),
            NativeImplCollision::Reserved { name } => cat3(
                "native step impl '",
                name.as_str(),
                "' uses the reserved `gwead.` prefix, which only the engine may submit; name it <your-namespace>.<plugin>.<step>",
            ),
        }
    }
}

/// What a [`NativeStepImplEntry`] stands for.
pub struct EntryView<B> {
    pub name: Seq<char>,
    pub body: B,
    pub kernel_owned: bool,
}

impl<B: Copy> NativeStepImplEntry<B> {
    /// What the entry stands for.
    pub closed spec fn entry(self) -> EntryView<B> {
        EntryView { name: self.name@, body: self.impl_, kernel_owned: self.kernel_owned }
    }

    /// A body that anybody ships.
    pub fn new(name: &'static str, impl_: B) -> (r: Self)
        ensures
            r.entry() == (EntryView { name: name@, body: impl_, kernel_owned: false }),
    {
        NativeStepImplEntry { name, impl_, kernel_owned: false }
    }

    /// A body that the engine ships.
    pub fn kernel(name: &'static str, impl_: B) -> (r: Self)
        ensures
            r.entry() == (EntryView { name: name@, body: impl_, kernel_owned: true }),
    {
        NativeStepImplEntry { name, impl_, kernel_owned: true }
    }

    /// The name of the body.
    pub fn name(&self) -> (r: &'static str)
        ensures
            r@ == self.entry().name,
    {
        self.name
    }
}

/// Refuses a reserved name from anybody but the engine.
pub fn check_reservation(name: &str, kernel_owned: bool) -> (r: Result<(), NativeImplCollision>)
    ensures
        match r {
            Ok(_) => kernel_owned || !is_reserved(name@),
            Err(e) => !kernel_owned && is_reserved(name@) && e@ == (CollisionView::Reserved {
                name: name@,
            }),
        },
{
    if starts_with(name, "gwead.") && !kernel_owned {
        Err(NativeImplCollision::Reserved { name: name.to_owned() })
    } else {
        Ok(())
    }
}

/// A body as a table holds it.
#[derive(Debug, Clone, Copy)]
pub struct Held<B> {
    pub body: B,
}

impl<B> DeepView for Held<B> {
    type V = B;

    open spec fn deep_view(&self) -> B {
        self.body
    }
}

impl<B: Copy> Duplicate for Held<B> {
    fn duplicate(&self) -> (r: Self) {
        Held { body: self.body }
    }
}

/// Bodies by name.
pub struct NativeStepImplTable<B> {
    impls: Table<String, Held<B>>,
}

impl<B> View for NativeStepImplTable<B> {
    type V = Map<Seq<char>, B>;

    closed spec fn view(&self) -> Map<Seq<char>, B> {
        self.impls.map()
    }
}

/// What entries stand for.
pub open spec fn entry_views<B: Copy>(v: Seq<NativeStepImplEntry<B>>) -> Seq<EntryView<B>> {
    v.map_values(|e: NativeStepImplEntry<B>| e.entry())
}

/// A table from entries, one after the other: the bodies by name, or the first entry with a name
/// that is reserved or taken.
pub open spec fn gathered<B>(entries: Seq<EntryView<B>>) -> Result<
    Map<Seq<char>, B>,
    CollisionView,
>
    decreases entries.len(),
{
    if entries.len() == 0 {
        Ok(Map::empty())
    } else {
        let e = entries.last();
        match gathered(entries.drop_last()) {
            Err(c) => Err(c),
            Ok(m) => if is_reserved(e.name) && !e.kernel_owned {
                Err(CollisionView::Reserved { name: e.name })
            } else if m.contains_key(e.name) {
                Err(CollisionView::Duplicate { name: e.name })
            } else {
                Ok(m.insert(e.name, e.body))
            },
        }
    }
}

/// A table to which the entries are added whose names it does not hold, one after the other, up to
/// the first entry with a reserved name.
pub open spec fn topped_up<B>(m: Map<Seq<char>, B>, entries: Seq<EntryView<B>>) -> (
    Map<Seq<char>, B>,
    Option<CollisionView>,
)
    decreases entries.len(),
{
    if entries.len() == 0 {
        (m, None)
    } else {
        let e = entries.last();
        let (so_far, stop) = topped_up(m, entries.drop_last());
        if stop is Some {
            (so_far, stop)
        } else if is_reserved(e.name) && !e.kernel_owned {
            (so_far, Some(CollisionView::Reserved { name: e.name }))
        } else if so_far.contains_key(e.name) {
            (so_far, None)
        } else {
            (so_far.insert(e.name, e.body), None)
        }
    }
}

proof fn lemma_gathered_stops<B>(entries: Seq<EntryView<B>>, i: int)
    requires
        0 <= i <= entries.len(),
        gathered(entries.take(i)) is Err,
    ensures
        gathered(entries) == gathered(entries.take(i)),
    decreases entries.len() - i,
{
    if i == entries.len() {
        assert(entries.take(i) =~= entries);
    } else {
        assert(entries.take(i + 1).drop_last() =~= entries.take(i));
        lemma_gathered_stops(entries, i + 1);
    }
}

proof fn lemma_topped_up_stops<B>(m: Map<Seq<char>, B>, entries: Seq<EntryView<B>>, i: int)
    requires
        0 <= i <= entries.len(),
        topped_up(m, entries.take(i)).1 is Some,
    ensures
        topped_up(m, entries) == topped_up(m, entries.take(i)),
    decreases entries.len() - i,
{
    if i == entries.len() {
        assert(entries.take(i) =~= entries);
    } else {
        assert(entries.take(i + 1).drop_last() =~= entries.take(i));
        lemma_topped_up_stops(m, entries, i + 1);
    }
}

impl<B: Copy> NativeStepImplTable<B> {
    /// No name has two bodies.
    pub closed spec fn wf(&self) -> bool {
        self.impls.wf()
    }

    /// A table without bodies.
    pub fn empty() -> (r: Self)
        ensures
            r.wf(),
            r@ == Map::<Seq<char>, B>::empty(),
    {
        NativeStepImplTable { impls: Table::new() }
    }

    /// A table from entries. A name that is reserved or taken is refused.
    pub fn from_entries(entries: &[NativeStepImplEntry<B>]) -> (r: Result<
        Self,
        NativeImplCollision,
    >)
        ensures
            match r {
                Ok(t) => t.wf() && gathered(entry_views(entries@)) == Ok::<
                    Map<Seq<char>, B>,
                    CollisionView,
                >(t@),
                Err(e) => gathered(entry_views(entries@)) == Err::<
                    Map<Seq<char>, B>,
                    CollisionView,
                >(e@),
            },
    {
        let ghost views = entry_views(entries@);
        let mut table = Self::empty();
        let mut i: usize = 0;
        while i < entries.len()
            invariant
                i <= entries@.len(),
                views == entry_views(entries@),
                table.wf(),
                gathered(views.take(i as int)) == Ok::<Map<Seq<char>, B>, CollisionView>(table@),
            decreases entries@.len() - i,
        {
            let e = entries[i];
            proof {
                assert(views[i as int] == e.entry());
                assert(views.take(i as int + 1).drop_last() =~= views.take(i as int));
            }
            if let Err(c) = check_reservation(e.name, e.kernel_owned) {
                proof {
                    lemma_gathered_stops(views, i as int + 1);
                }
                return Err(c);
            }
            if table.impls.contains(&e.name.to_owned()) {
                proof {
                    lemma_gathered_stops(views, i as int + 1);
                }
                return Err(NativeImplCollision::Duplicate { name: e.name.to_owned() });
            }
            table.impls.insert(e.name.to_owned(), Held { body: e.impl_ });
            i += 1;
        }
        assert(views.take(views.len() as int) =~= views);
        Ok(table)
    }

    /// Adds an embedder's body. A reserved name, and one that is taken, are refused, and the table
    /// stays as it is.
    pub fn insert(&mut self, name: &str, impl_: B) -> (r: Result<(), NativeImplCollision>)
        requires
            old(self).wf(),
        ensures
            final(self).wf(),
            if is_reserved(name@) {
                r is Err && r->Err_0@ == (CollisionView::Reserved { name: name@ }) && final(self)@
                    == old(self)@
            } else if old(self)@.contains_key(name@) {
                r is Err && r->Err_0@ == (CollisionView::Duplicate { name: name@ }) && final(self)@
                    == old(self)@
            } else {
                r is Ok && final(self)@ == old(self)@.insert(name@, impl_)
            },
    {
        check_reservation(name, false)?;
        if self.impls.contains(&name.to_owned()) {
            Err(NativeImplCollision::Duplicate { name: name.to_owned() })
        } else {
            self.impls.insert(name.to_owned(), Held { body: impl_ });
            Ok(())
        }
    }

    /// Adds the entries whose names the table does not hold. A reserved name is refused, with what
    /// was added before it kept.
    pub fn ensure_from_entries(&mut self, entries: &[NativeStepImplEntry<B>]) -> (r: Result<
        (),
        NativeImplCollision,
    >)
        requires
            old(self).wf(),
        ensures
            final(self).wf(),
            final(self)@ == topped_up(old(self)@, entry_views(entries@)).0,
            match topped_up(old(self)@, entry_views(entries@)).1 {
                None => r is Ok,
                Some(c) => r is Err && r->Err_0@ == c,
            },
    {
        let ghost views = entry_views(entries@);
        let ghost before = self@;
        let mut i: usize = 0;
        while i < entries.len()
            invariant
                i <= entries@.len(),
                views == entry_views(entries@),
                self.wf(),
                before == old(self)@,
                topped_up(before, views.take(i as int)) == (self@, None::<CollisionView>),
            decreases entries@.len() - i,
        {
            let e = entries[i];
            proof {
                assert(views[i as int] == e.entry());
                assert(views.take(i as int + 1).drop_last() =~= views.take(i as int));
            }
            if let Err(c) = check_reservation(e.name, e.kernel_owned) {
                proof {
                    lemma_topped_up_stops(before, views, i as int + 1);
                }
                return Err(c);
            }
            if !self.impls.contains(&e.name.to_owned()) {
                self.impls.insert(e.name.to_owned(), Held { body: e.impl_ });
            }
            i += 1;
        }
        assert(views.take(views.len() as int) =~= views);
        Ok(())
    }

    /// The body under a name.
    pub fn get(&self, name: &str) -> (r: Option<B>)
        requires
            self.wf(),
        ensures
            match r {
                Some(b) => self@.contains_key(name@) && self@[name@] == b,
                None => !self@.contains_key(name@),
            },
    {
        match self.impls.get(&name.to_owned()) {
            Some(h) => Some(h.body),
            None => None,
        }
    }

    /// How many bodies there are.
    pub fn len(&self) -> (r: usize)
        requires
            self.wf(),
        ensures
            self@.dom().finite(),
            r == self@.dom().len(),
    {
        self.impls.len()
    }

    /// Whether there are no bodies.
    pub fn is_empty(&self) -> (r: bool)
        requires
            self.wf(),
        ensures
            r == (self@.dom().len() == 0),
    {
        self.impls.len() == 0
    }
}

/// A body of the engine under its name.
#[derive(Debug, Clone, Copy)]
pub struct IntrinsicStepImplEntry<B> {
    pub name: &'static str,
    pub impl_: B,
}

/// The engine's own bodies by name.
pub struct IntrinsicStepImplTable<B> {
    impls: Table<String, Held<B>>,
}

impl<B> View for IntrinsicStepImplTable<B> {
    type V = Map<Seq<char>, B>;

    closed spec fn view(&self) -> Map<Seq<char>, B> {
        self.impls.map()
    }
}

/// What entries stand for: the engine's own.
pub open spec fn intrinsic_views<B: Copy>(v: Seq<IntrinsicStepImplEntry<B>>) -> Seq<EntryView<B>> {
    v.map_values(
        |e: IntrinsicStepImplEntry<B>|
            EntryView { name: e.name@, body: e.impl_, kernel_owned: true },
    )
}

impl<B: Copy> IntrinsicStepImplTable<B> {
    /// No name has two bodies.
    pub closed spec fn wf(&self) -> bool {
        self.impls.wf()
    }

    /// A table from entries. A name that is taken is refused.
    pub fn from_entries(entries: &[IntrinsicStepImplEntry<B>]) -> (r: Result<
        Self,
        NativeImplCollision,
    >)
        ensures
            match r {
                Ok(t) => t.wf() && gathered(intrinsic_views(entries@)) == Ok::<
                    Map<Seq<char>, B>,
                    CollisionView,
                >(t@),
                Err(e) => gathered(intrinsic_views(entries@)) == Err::<
                    Map<Seq<char>, B>,
                    CollisionView,
                >(e@),
            },
    {
        let ghost views = intrinsic_views(entries@);
        let mut table = IntrinsicStepImplTable { impls: Table::new() };
        let mut i: usize = 0;
        while i < entries.len()
            invariant
                i <= entries@.len(),
                views == intrinsic_views(entries@),
                table.wf(),
                gathered(views.take(i as int)) == Ok::<Map<Seq<char>, B>, CollisionView>(table@),
            decreases entries@.len() - i,
        {
            let e = entries[i];
            proof {
                assert(views[i as int].name == e.name@);
                assert(views.take(i as int + 1).drop_last() =~= views.take(i as int));
            }
            if table.impls.contains(&e.name.to_owned()) {
                proof {
                    lemma_gathered_stops(views, i as int + 1);
                }
                return Err(NativeImplCollision::Duplicate { name: e.name.to_owned() });
            }
            table.impls.insert(e.name.to_owned(), Held { body: e.impl_ });
            i += 1;
        }
        assert(views.take(views.len() as int) =~= views);
        Ok(table)
    }

    /// The body under a name.
    pub fn get(&self, name: &str) -> (r: Option<B>)
        requires
            self.wf(),
        ensures
            match r {
                Some(b) => self@.contains_key(name@) && self@[name@] == b,
                None => !self@.contains_key(name@),
            },
    {
        match self.impls.get(&name.to_owned()) {
            Some(h) => Some(h.body),
            None => None,
        }
    }
}

/// A table from entries holds a reserved name only where the engine shipped it.
pub proof fn law_reserved_names_are_the_engines<B>(entries: Seq<EntryView<B>>, name: Seq<char>)
    requires
        gathered(entries) is Ok,
        gathered(entries)->Ok_0.contains_key(name),
        is_reserved(name),
    ensures
        exists|i: int|
            0 <= i < entries.len() && (#[trigger] entries[i]).name == name
                && entries[i].kernel_owned,
    decreases entries.len(),
{
    let e = entries.last();
    let before = entries.drop_last();
    if e.name == name {
        assert(entries[entries.len() - 1].kernel_owned);
    } else {
        law_reserved_names_are_the_engines(before, name);
        let i = choose|i: int|
            0 <= i < before.len() && (#[trigger] before[i]).name == name && before[i].kernel_owned;
        assert(entries[i] == before[i]);
    }
}

/// What a table held before it was topped up it holds after: an embedder's own body wins over one
/// that is submitted under the same name.
pub proof fn law_topping_up_keeps_what_is_there<B>(
    m: Map<Seq<char>, B>,
    entries: Seq<EntryView<B>>,
    name: Seq<char>,
)
    requires
        m.contains_key(name),
    ensures
        topped_up(m, entries).0.contains_key(name),
        topped_up(m, entries).0[name] == m[name],
    decreases entries.len(),
{
    if entries.len() > 0 {
        law_topping_up_keeps_what_is_there(m, entries.drop_last(), name);
    }
}

} // verus!
