//! How manifests are loaded, unloaded and reloaded.

use vstd::prelude::*;

use crate::classify::{
    classified_text, classify_manifest, ClassifiedManifest, ClassifiedView, ManifestKind, Reading,
};
use crate::duplicate::Duplicate;
use crate::error::{ErrorView, KernelError};
use crate::identity::{namespace_fault, qualified, qualify, validate_namespace};
use crate::kernel::{
    plain, registration_outcome, Kernel, KernelView, ManifestPayload, ManifestRecord,
    ManifestSurvey, PayloadView, RecordView,
};
use crate::manifest_checks::{import_names, names_to_import};
use crate::permissions::AppPermissionCategory;
use crate::registration::Host;
use crate::registry::{
    at, lemma_scrubbing, list_at, scrubbed, scrubbing, step_type_key_of, with_item, PluginRegistry,
};
use crate::spi::role_keys;
use crate::table::Table;
use crate::text::{cat3, decimal, decimal_text, join, joined, same, texts};
use crate::wasm_runtime::{import_name, WasmRuntime, StepBody};

verus! {

/// A handle to a loaded manifest.
#[derive(Debug, Clone, Copy, PartialEq, Eq, Hash)]
pub struct ManifestHandle(pub u64);

/// What is made of a document from outside before it is loaded: the reading of it, what is known of
/// the plugin that it spells, and whether the contract that it spells can be loaded.
pub struct Preparation {
    pub reading: Reading,
    pub survey: ManifestSurvey,
    pub contract: Result<(), KernelError>,
}

impl Preparation {
    /// There is a plan, or an error in its place, for every action of the plugin.
    pub open spec fn fits(&self) -> bool {
        self.reading.plugin is Ok ==> self.survey.plans@.len()
            == self.reading.plugin->Ok_0.actions@.len()
    }
}

impl Duplicate for ManifestPayload {
    fn duplicate(&self) -> (r: Self) {
        match self {
            ManifestPayload::SpiDef(json) => ManifestPayload::SpiDef(json.clone()),
            ManifestPayload::Plugin(m) => ManifestPayload::Plugin(Box::new(m.duplicate())),
        }
    }
}

impl Duplicate for ManifestRecord {
    fn duplicate(&self) -> (r: Self) {
        ManifestRecord {
            identifier: self.identifier.clone(),
            namespace: self.namespace.clone(),
            payload: self.payload.duplicate(),
            immutable: self.immutable,
        }
    }
}

/// What can come of registering a document: the contract or the plugin that it spells is registered
/// and a record of it is returned, or it is refused and nothing changes.
pub open spec fn document_outcome<F: Fn(&str) -> Result<(), String>>(
    k: KernelView,
    host: Host,
    categories: Seq<AppPermissionCategory<F>>,
    json: Seq<char>,
    namespace: Seq<char>,
    kernel_owned: bool,
    prep: Preparation,
    r: Result<RecordView, ErrorView>,
    after: KernelView,
) -> bool {
    match classified_text(json, prep.reading) {
        Err(e) => r == Err::<RecordView, ErrorView>(ErrorView::Validation(e)) && after == k,
        Ok(ClassifiedView::SpiDef { role }) => match namespace_fault(namespace) {
            Some(e) => r == Err::<RecordView, ErrorView>(ErrorView::Validation(e.text())) && after
                == k,
            None => match prep.contract {
                Err(e) => r == Err::<RecordView, ErrorView>(e@) && after == k,
                Ok(_) => {
                    let key = qualified(namespace, role);
                    &&& r == Ok::<RecordView, ErrorView>(
                        RecordView {
                            identifier: key,
                            namespace,
                            payload: PayloadView::SpiDef(json),
                            immutable: false,
                        },
                    )
                    &&& after == (KernelView { spi: k.spi.insert(key, json), ..k })
                },
            },
        },
        Ok(ClassifiedView::Plugin(m)) => {
            &&& registration_outcome(
                k,
                host,
                categories,
                namespace,
                m,
                kernel_owned,
                prep.survey@,
                match r {
                    Ok(_) => Ok(()),
                    Err(e) => Err(e),
                },
                after,
            )
            &&& r is Ok ==> r->Ok_0 == (RecordView {
                identifier: qualified(namespace, m.name),
                namespace,
                payload: PayloadView::Plugin(m),
                immutable: false,
            })
            &&& r is Err ==> after == k
        },
    }
}

/// The record of a result.
pub open spec fn record_result(r: Result<ManifestRecord, KernelError>) -> Result<
    RecordView,
    ErrorView,
> {
    match r {
        Ok(v) => Ok(v.deep_view()),
        Err(e) => Err(e@),
    }
}

/// The users of roles with a handle among those of each of the keys.
pub open spec fn tracked_users(
    users: Map<Seq<char>, Seq<u64>>,
    handle: u64,
    keys: Seq<Seq<char>>,
) -> Map<Seq<char>, Seq<u64>>
    decreases keys.len(),
{
    if keys.len() == 0 {
        users
    } else {
        let before = tracked_users(users, handle, keys.drop_last());
        before.insert(keys.last(), with_item(list_at(before, keys.last()), handle))
    }
}

/// The kernel with a record under a handle.
pub open spec fn with_record(k: KernelView, handle: u64, record: RecordView) -> KernelView {
    KernelView {
        loaded: k.loaded.insert(handle, record),
        role_users: match record.payload {
            PayloadView::SpiDef(_) => k.role_users,
            PayloadView::Plugin(m) => tracked_users(
                k.role_users,
                handle,
                role_keys(k.spi, record.namespace, m.roles),
            ),
        },
        ..k
    }
}

/// Handles other than `handle`.
pub open spec fn other_than(handle: u64) -> spec_fn(u64) -> bool {
    |h: u64| h != handle
}

/// The kernel without a handle among the users of roles; no role is left without a user.
pub open spec fn untracked(k: KernelView, handle: u64) -> KernelView {
    KernelView { role_users: scrubbed(k.role_users, other_than(handle)), ..k }
}

/// The import table, and the plugins that put step types there, without what a plugin put there
/// under the given step types.
pub open spec fn released(
    owners: Map<Seq<char>, Seq<char>>,
    imports: Map<Seq<char>, StepBody>,
    plugin: Seq<char>,
    names: Seq<Seq<char>>,
) -> (Map<Seq<char>, Seq<char>>, Map<Seq<char>, StepBody>)
    decreases names.len(),
{
    if names.len() == 0 {
        (owners, imports)
    } else {
        let (o, i) = released(owners, imports, plugin, names.drop_last());
        let key = step_type_key_of(plugin, names.last());
        if o.contains_key(key) && o[key] == plugin {
            (o.remove(key), i.remove(import_name(key)))
        } else {
            (o, i)
        }
    }
}

/// What is registered of a loaded manifest is still there.
pub open spec fn is_registered(k: KernelView, record: RecordView) -> bool {
    match record.payload {
        PayloadView::SpiDef(_) => k.spi.contains_key(record.identifier),
        PayloadView::Plugin(_) => k.registry.manifests.contains_key(record.identifier),
    }
}

/// The kernel without what is registered of a loaded manifest.
pub open spec fn unregistered(k: KernelView, record: RecordView) -> KernelView {
    match record.payload {
        PayloadView::SpiDef(_) => KernelView { spi: k.spi.remove(record.identifier), ..k },
        PayloadView::Plugin(m) => {
            let (owners, imports) = released(
                k.owners,
                k.imports,
                record.identifier,
                import_names(m),
            );
            KernelView {
                registry: k.registry.without(record.identifier),
                owners,
                imports,
                ..k
            }
        },
    }
}

/// The words for what was tracked and is not registered.
pub open spec fn drift_text(record: RecordView) -> Seq<char> {
    match record.payload {
        PayloadView::SpiDef(_) => "Lifecycle index drift: SPI def '"@ + record.identifier
            + "' was tracked but missing from SPI registry"@,
        PayloadView::Plugin(_) => "Lifecycle index drift: plugin '"@ + record.identifier
            + "' was tracked but missing from plugin registry"@,
    }
}

/// The identities of those among the handles that are loaded.
pub open spec fn dependents(handles: Seq<u64>, loaded: Map<u64, RecordView>) -> Seq<Seq<char>>
    decreases handles.len(),
{
    if handles.len() == 0 {
        Seq::empty()
    } else {
        let before = dependents(handles.drop_last(), loaded);
        if loaded.contains_key(handles.last()) {
            before.push(loaded[handles.last()].identifier)
        } else {
            before
        }
    }
}

/// The words for a handle.
pub open spec fn handle_text(handle: u64) -> Seq<char> {
    "ManifestHandle("@ + decimal(handle as nat) + ")"@
}

/// What comes of unloading a manifest: a manifest that the kernel needs stays; so does the contract
/// of a role that a loaded plugin fulfils; else what was registered of it goes, and its handle too.
pub open spec fn unload_outcome(k: KernelView, handle: u64) -> (
    Result<(), ErrorView>,
    KernelView,
) {
    match at(k.loaded, handle) {
        None => (
            Err(
                ErrorView::NotFound(
                    handle_text(handle)
                        + " not loaded (already unloaded, or never registered via load_manifest)"@,
                ),
            ),
            k,
        ),
        Some(record) => {
            let rest = KernelView { loaded: k.loaded.remove(handle), ..k };
            let users = list_at(k.role_users, record.identifier);
            if record.immutable {
                (
                    Err(
                        ErrorView::Validation(
                            handle_text(handle)
                                + " is kernel-immutable (intrinsic step types or other boot-required manifest); cannot unload"@,
                        ),
                    ),
                    k,
                )
            } else if record.payload is SpiDef && users.len() > 0 {
                (
                    Err(
                        ErrorView::Validation(
                            "Cannot unload SPI def '"@ + record.identifier
                                + "' — still claimed by plugin(s): "@ + joined(
                                dependents(users, rest.loaded),
                                ", "@,
                            ),
                        ),
                    ),
                    k,
                )
            } else if !is_registered(k, record) {
                (Err(ErrorView::Runtime(drift_text(record))), rest)
            } else {
                (Ok(()), untracked(unregistered(rest, record), handle))
            }
        },
    }
}

/// What a plugin's own name was rolled back with: what is known of the retained manifest.
pub struct Rollback {
    pub survey: ManifestSurvey,
    pub contract: Result<(), KernelError>,
}

/// What can come of registering a retained document again.
pub open spec fn rollback_outcome<F: Fn(&str) -> Result<(), String>>(
    k: KernelView,
    host: Host,
    categories: Seq<AppPermissionCategory<F>>,
    record: RecordView,
    back: Rollback,
    r: Result<(), ErrorView>,
    after: KernelView,
) -> bool {
    match record.payload {
        PayloadView::SpiDef(json) => match back.contract {
            Ok(_) => r is Ok && after == (KernelView {
                spi: k.spi.insert(record.identifier, json),
                ..k
            }),
            Err(e) => r == Err::<(), ErrorView>(e@) && after == k,
        },
        PayloadView::Plugin(m) => {
            &&& registration_outcome(
                k,
                host,
                categories,
                record.namespace,
                m,
                false,
                back.survey@,
                r,
                after,
            )
            &&& r is Err ==> after == k
        },
    }
}

/// The words for a reload whose rollback failed too.
pub open spec fn lost_text(e: ErrorView, back: ErrorView) -> Seq<char> {
    "reload failed and rollback also failed — kernel state is inconsistent. original error: "@
        + e.text() + ". rollback error: "@ + back.text()
}

/// What can come of replacing a loaded manifest: a manifest that the kernel needs stays. Else what
/// was registered of it goes and the new document is registered in the same namespace, under the
/// same handle; where that is refused the retained document is registered again, under the same
/// handle.
pub open spec fn reload_outcome<F: Fn(&str) -> Result<(), String>>(
    k: KernelView,
    host: Host,
    categories: Seq<AppPermissionCategory<F>>,
    handle: u64,
    json: Seq<char>,
    prep: Preparation,
    back: Rollback,
    r: Result<(), ErrorView>,
    after: KernelView,
) -> bool {
    match at(k.loaded, handle) {
        None => r == Err::<(), ErrorView>(
            ErrorView::NotFound(
                handle_text(handle) + " not loaded (cannot reload an unknown handle)"@,
            ),
        ) && after == k,
        Some(record) => if record.immutable {
            r == Err::<(), ErrorView>(
                ErrorView::Validation(
                    handle_text(handle)
                        + " is kernel-immutable (intrinsic step types or other boot-required manifest); cannot reload"@,
                ),
            ) && after == k
        } else if !is_registered(k, record) {
            r == Err::<(), ErrorView>(ErrorView::Runtime(drift_text(record))) && after == k
        } else {
            let cleared = untracked(
                unregistered(KernelView { loaded: k.loaded.remove(handle), ..k }, record),
                handle,
            );
            ||| exists|new_record: RecordView, k2: KernelView|
                {
                    &&& #[trigger] document_outcome(
                        cleared,
                        host,
                        categories,
                        json,
                        record.namespace,
                        false,
                        prep,
                        Ok(new_record),
                        k2,
                    )
                    &&& r is Ok
                    &&& after == with_record(k2, handle, new_record)
                }
            ||| exists|e: ErrorView, k3: KernelView|
                {
                    &&& #[trigger] document_outcome(
                        cleared,
                        host,
                        categories,
                        json,
                        record.namespace,
                        false,
                        prep,
                        Err(e),
                        cleared,
                    )
                    &&& #[trigger] rollback_outcome(
                        cleared,
                        host,
                        categories,
                        record,
                        back,
                        Ok(()),
                        k3,
                    )
                    &&& r == Err::<(), ErrorView>(e)
                    &&& after == with_record(k3, handle, record)
                }
            ||| exists|e: ErrorView, e2: ErrorView|
                {
                    &&& #[trigger] document_outcome(
                        cleared,
                        host,
                        categories,
                        json,
                        record.namespace,
                        false,
                        prep,
                        Err(e),
                        cleared,
                    )
                    &&& #[trigger] rollback_outcome(
                        cleared,
                        host,
                        categories,
                        record,
                        back,
                        Err(e2),
                        cleared,
                    )
                    &&& r == Err::<(), ErrorView>(ErrorView::Runtime(lost_text(e, e2)))
                    &&& after == cleared
                }
        },
    }
}

fn release_imports(
    owners: &mut Table<String, String>,
    imports: &mut WasmRuntime,
    plugin: &str,
    names: &Vec<String>,
)
    requires
        old(owners).wf(),
        old(imports).wf(),
    ensures
        final(owners).wf(),
        final(imports).wf(),
        final(imports).engine_view() == old(imports).engine_view(),
        (final(owners).map(), final(imports)@) == released(
            old(owners).map(),
            old(imports)@,
            plugin@,
            names.deep_view(),
        ),
{
    let ghost o = owners.map();
    let ghost m = imports@;
    let ghost views = names.deep_view();
    let mut i: usize = 0;
    while i < names.len()
        invariant
            i <= names@.len(),
            views == names.deep_view(),
            owners.wf(),
            imports.wf(),
            imports.engine_view() == old(imports).engine_view(),
            (owners.map(), imports@) == released(o, m, plugin@, views.take(i as int)),
        decreases names@.len() - i,
    {
        proof {
            assert(views.take(i as int + 1).drop_last() =~= views.take(i as int));
            assert(views[i as int] == names@[i as int]@);
        }
        let key = PluginRegistry::step_type_key(plugin, names[i].as_str());
        let ours = match owners.get(&key) {
            Some(owner) => same(owner.as_str(), plugin),
            None => false,
        };
        if ours {
            owners.remove(&key);
            imports.remove_step_type(key.as_str());
        }
        i += 1;
    }
    assert(views.take(views.len() as int) =~= views);
}

fn track_users(users: &mut Table<String, Vec<u64>>, handle: u64, keys: &Vec<String>)
    requires
        old(users).wf(),
    ensures
        final(users).wf(),
        final(users).map() == tracked_users(old(users).map(), handle, keys.deep_view()),
{
    let ghost before = users.map();
    let ghost views = keys.deep_view();
    let mut i: usize = 0;
    while i < keys.len()
        invariant
            i <= keys@.len(),
            views == keys.deep_view(),
            users.wf(),
            users.map() == tracked_users(before, handle, views.take(i as int)),
        decreases keys@.len() - i,
    {
        proof {
            assert(views.take(i as int + 1).drop_last() =~= views.take(i as int));
            assert(views[i as int] == keys@[i as int]@);
        }
        let mut bucket: Vec<u64> = match users.get(&keys[i]) {
            Some(v) => v.duplicate(),
            None => Vec::new(),
        };
        let ghost so_far = bucket.deep_view();
        assert(so_far =~= list_at(users.map(), views[i as int]));
        let mut j: usize = 0;
        while j < bucket.len() && bucket[j] != handle
            invariant
                j <= bucket@.len(),
                so_far == bucket.deep_view(),
                forall|k: int| 0 <= k < j ==> (#[trigger] so_far[k]) != handle,
            decreases bucket@.len() - j,
        {
            assert(so_far[j as int] == bucket@[j as int]);
            j += 1;
        }
        if j == bucket.len() {
            assert(!so_far.contains(handle));
            bucket.push(handle);
            assert(bucket.deep_view() =~= so_far.push(handle));
        } else {
            assert(so_far[j as int] == handle);
        }
        users.insert(keys[i].clone(), bucket);
        i += 1;
    }
    assert(views.take(views.len() as int) =~= views);
}

fn handles_but(v: Vec<u64>, handle: u64) -> (r: Vec<u64>)
    ensures
        r.deep_view() == v.deep_view().filter(other_than(handle)),
{
    let ghost views = v.deep_view();
    let mut r: Vec<u64> = Vec::new();
    proof {
        assert(views.take(0).filter(other_than(handle)) =~= Seq::empty()) by {
            reveal(Seq::filter);
        }
        assert(r.deep_view() =~= Seq::empty());
    }
    let mut i: usize = 0;
    while i < v.len()
        invariant
            i <= v@.len(),
            views == v.deep_view(),
            r.deep_view() == views.take(i as int).filter(other_than(handle)),
        decreases v@.len() - i,
    {
        let ghost so_far = r.deep_view();
        let ghost t = views.take(i as int + 1);
        proof {
            assert(t.drop_last() =~= views.take(i as int));
            assert(t.last() == v@[i as int]);
            reveal(Seq::filter);
        }
        if v[i] != handle {
            r.push(v[i]);
            assert(r.deep_view() =~= so_far.push(t.last()));
        }
        i += 1;
    }
    assert(views.take(views.len() as int) =~= views);
    r
}

fn untrack_users(users: &mut Table<String, Vec<u64>>, handle: u64)
    requires
        old(users).wf(),
    ensures
        final(users).wf(),
        final(users).map() == scrubbed(old(users).map(), other_than(handle)),
{
    let ghost step = scrubbing(other_than(handle));
    let keep = |k: &String, v: Vec<u64>| -> (r: Option<Vec<u64>>)
        ensures
            r.deep_view() == step(k.deep_view(), v.deep_view()),
    {
        let left = handles_but(v, handle);
        if left.len() > 0 {
            Some(left)
        } else {
            None
        }
    };
    users.revise(keep, Ghost(step));
    proof {
        lemma_scrubbing(old(users).map(), other_than(handle));
    }
}

fn handle_words(handle: u64, rest: &str) -> (r: String)
    ensures
        r@ == handle_text(handle) + rest@,
{
    let n = decimal_text(handle);
    let mut w = cat3("ManifestHandle(", n.as_str(), ")");
    w.append(rest);
    w
}

fn drift_words(record: &ManifestRecord) -> (r: String)
    ensures
        r@ == drift_text(record.deep_view()),
{
    match &record.payload {
        ManifestPayload::SpiDef(_) => cat3(
            "Lifecycle index drift: SPI def '",
            record.identifier.as_str(),
            "' was tracked but missing from SPI registry",
        ),
        ManifestPayload::Plugin(_) => cat3(
            "Lifecycle index drift: plugin '",
            record.identifier.as_str(),
            "' was tracked but missing from plugin registry",
        ),
    }
}

impl<F: Fn(&str) -> Result<(), String>> Kernel<F> {
    /// Classifies a document and registers what it spells, without a handle.
    fn register_classified_manifest(
        &mut self,
        json: &str,
        namespace: &str,
        kernel_owned: bool,
        prep: Preparation,
    ) -> (r: Result<ManifestRecord, KernelError>)
        requires
            old(self).wf(),
            prep.fits(),
        ensures
            final(self).wf(),
            final(self).booted_as(*old(self)),
            document_outcome(
                old(self)@,
                old(self).host(),
                old(self).categories(),
                json@,
                namespace@,
                kernel_owned,
                prep,
                record_result(r),
                final(self)@,
            ),
            r is Err ==> final(self)@ == old(self)@,
    {
        let Preparation { reading, survey, contract } = prep;
        match classify_manifest(json, reading) {
            Err(e) => Err(e),
            Ok(ClassifiedManifest::SpiDef { role }) => {
                if let Err(e) = validate_namespace(namespace) {
                    return Err(KernelError::Validation(e.message()));
                }
                let key = qualify(namespace, role.as_str());
                self.spi_registry.register(key.as_str(), json, contract)?;
                Ok(
                    ManifestRecord {
                        identifier: key,
                        namespace: namespace.to_owned(),
                        payload: ManifestPayload::SpiDef(json.to_owned()),
                        immutable: false,
                    },
                )
            },
            Ok(ClassifiedManifest::Plugin(manifest)) => {
                let snapshot = manifest.duplicate();
                let identifier = qualify(namespace, manifest.name.as_str());
                proof {
                    assert(manifest.actions.deep_view().len() == manifest.actions@.len());
                }
                self.register_plugin_in_as(namespace, *manifest, kernel_owned, survey)?;
                Ok(
                    ManifestRecord {
                        identifier,
                        namespace: namespace.to_owned(),
                        payload: ManifestPayload::Plugin(Box::new(snapshot)),
                        immutable: false,
                    },
                )
            },
        }
    }
}

/// What can come of loading a document: it is registered and kept under the next handle, or it is
/// refused and nothing changes.
pub open spec fn load_outcome<F: Fn(&str) -> Result<(), String>>(
    k: KernelView,
    host: Host,
    categories: Seq<AppPermissionCategory<F>>,
    json: Seq<char>,
    namespace: Seq<char>,
    immutable: bool,
    prep: Preparation,
    r: Result<ManifestHandle, ErrorView>,
    after: KernelView,
) -> bool {
    match r {
        Err(e) => after == k && document_outcome(
            k,
            host,
            categories,
            json,
            namespace,
            immutable,
            prep,
            Err(e),
            k,
        ),
        Ok(handle) => exists|record: RecordView, k2: KernelView|
            {
                &&& #[trigger] document_outcome(
                    k,
                    host,
                    categories,
                    json,
                    namespace,
                    immutable,
                    prep,
                    Ok(record),
                    k2,
                )
                &&& handle.0 == k.next_id
                &&& after == with_record(
                    KernelView {
                        next_id: if k2.next_id < u64::MAX {
                            (k2.next_id + 1) as u64
                        } else {
                            u64::MAX
                        },
                        ..k2
                    },
                    handle.0,
                    RecordView { immutable, ..record },
                )
            },
    }
}

/// Registering a document gives out no handle.
proof fn lemma_document_keeps_handles<F: Fn(&str) -> Result<(), String>>(
    k: KernelView,
    host: Host,
    categories: Seq<AppPermissionCategory<F>>,
    json: Seq<char>,
    namespace: Seq<char>,
    kernel_owned: bool,
    prep: Preparation,
    r: Result<RecordView, ErrorView>,
    after: KernelView,
)
    requires
        document_outcome(k, host, categories, json, namespace, kernel_owned, prep, r, after),
    ensures
        after.next_id == k.next_id,
        after.loaded == k.loaded,
        after.role_users == k.role_users,
{
}

impl<F: Fn(&str) -> Result<(), String>> Kernel<F> {
    fn track_manifest(&mut self, handle: u64, record: ManifestRecord)
        requires
            old(self).wf(),
        ensures
            final(self).wf(),
            final(self).booted_as(*old(self)),
            final(self)@ == with_record(old(self)@, handle, record.deep_view()),
    {
        if let ManifestPayload::Plugin(m) = &record.payload {
            let keys = self.spi_registry.role_keys_for(record.namespace.as_str(), &m.roles);
            track_users(&mut self.spi_role_users, handle, &keys);
        }
        self.loaded_manifests.insert(handle, record);
    }

    /// Loads a document into a namespace, and tells whether it is one that the kernel needs.
    pub fn load_manifest_internal(
        &mut self,
        json: &str,
        namespace: &str,
        immutable: bool,
        prep: Preparation,
    ) -> (r: Result<ManifestHandle, KernelError>)
        requires
            old(self).wf(),
            prep.fits(),
        ensures
            final(self).wf(),
            final(self).booted_as(*old(self)),
            load_outcome(
                old(self)@,
                old(self).host(),
                old(self).categories(),
                json@,
                namespace@,
                immutable,
                prep,
                plain(r),
                final(self)@,
            ),
            r is Err ==> final(self)@ == old(self)@,
    {
        let ghost before = self@;
        let done = self.register_classified_manifest(json, namespace, immutable, prep);
        let ghost k2 = self@;
        proof {
            lemma_document_keeps_handles(
                before,
                old(self).host(),
                old(self).categories(),
                json@,
                namespace@,
                immutable,
                prep,
                record_result(done),
                k2,
            );
        }
        let mut record = match done {
            Ok(v) => v,
            Err(e) => {
                return Err(e);
            },
        };
        let ghost view = record.deep_view();
        record.immutable = immutable;
        let id: u64 = self.next_manifest_id;
        if id < u64::MAX {
            self.next_manifest_id = id + 1;
        }
        self.track_manifest(id, record);
        proof {
            assert(document_outcome(
                before,
                old(self).host(),
                old(self).categories(),
                json@,
                namespace@,
                immutable,
                prep,
                Ok(view),
                k2,
            ));
        }
        Ok(ManifestHandle(id))
    }

    /// Loads an embedder's document into a namespace.
    pub fn load_manifest_in(&mut self, namespace: &str, json: &str, prep: Preparation) -> (r: Result<
        ManifestHandle,
        KernelError,
    >)
        requires
            old(self).wf(),
            prep.fits(),
        ensures
            final(self).wf(),
            final(self).booted_as(*old(self)),
            load_outcome(
                old(self)@,
                old(self).host(),
                old(self).categories(),
                json@,
                namespace@,
                false,
                prep,
                plain(r),
                final(self)@,
            ),
            r is Err ==> final(self)@ == old(self)@,
    {
        self.load_manifest_internal(json, namespace, false, prep)
    }

    /// The kind of a document, which is not loaded.
    pub fn manifest_kind(json: &str, reading: Reading) -> (r: Result<ManifestKind, KernelError>)
        ensures
            match classified_text(json@, reading) {
                Ok(ClassifiedView::SpiDef { .. }) => r == Ok::<ManifestKind, KernelError>(
                    ManifestKind::SpiDef,
                ),
                Ok(ClassifiedView::Plugin(_)) => r == Ok::<ManifestKind, KernelError>(
                    ManifestKind::Plugin,
                ),
                Err(e) => r is Err && r->Err_0@ == ErrorView::Validation(e),
            },
    {
        match classify_manifest(json, reading) {
            Ok(c) => Ok(c.kind()),
            Err(e) => Err(e),
        }
    }

    /// Loads an embedder's document into the root namespace.
    pub fn load_manifest(&mut self, json: &str, prep: Preparation) -> (r: Result<
        ManifestHandle,
        KernelError,
    >)
        requires
            old(self).wf(),
            prep.fits(),
        ensures
            final(self).wf(),
            final(self).booted_as(*old(self)),
            load_outcome(
                old(self)@,
                old(self).host(),
                old(self).categories(),
                json@,
                Seq::<char>::empty(),
                false,
                prep,
                plain(r),
                final(self)@,
            ),
            r is Err ==> final(self)@ == old(self)@,
    {
        proof {
            reveal_strlit("");
            assert(""@ =~= Seq::<char>::empty());
        }
        self.load_manifest_in("", json, prep)
    }

    fn dependents_of(&self, handles: &Vec<u64>, handle: u64) -> (r: Vec<String>)
        requires
            self.wf(),
        ensures
            texts(r@) == dependents(handles.deep_view(), self@.loaded.remove(handle)),
    {
        let ghost views = handles.deep_view();
        let ghost loaded = self@.loaded.remove(handle);
        let mut r: Vec<String> = Vec::new();
        assert(texts(r@) =~= dependents(views.take(0), loaded));
        let mut i: usize = 0;
        while i < handles.len()
            invariant
                i <= handles@.len(),
                self.wf(),
                views == handles.deep_view(),
                loaded == self@.loaded.remove(handle),
                texts(r@) == dependents(views.take(i as int), loaded),
            decreases handles@.len() - i,
        {
            let ghost so_far = texts(r@);
            proof {
                assert(views.take(i as int + 1).drop_last() =~= views.take(i as int));
                assert(views[i as int] == handles@[i as int]);
            }
            if handles[i] != handle {
                if let Some(record) = self.loaded_manifests.get(&handles[i]) {
                    r.push(record.identifier.clone());
                    assert(texts(r@) =~= so_far.push(record.identifier@));
                }
            }
            i += 1;
        }
        assert(views.take(views.len() as int) =~= views);
        r
    }

    fn is_still_registered(&self, record: &ManifestRecord) -> (r: bool)
        requires
            self.wf(),
        ensures
            r == is_registered(self@, record.deep_view()),
    {
        match &record.payload {
            ManifestPayload::SpiDef(_) => self.spi_registry.contains(record.identifier.as_str()),
            ManifestPayload::Plugin(_) => self.registry.has_plugin(record.identifier.as_str()),
        }
    }

    /// Takes away what is registered of a loaded manifest, its handle, and its uses of roles.
    fn clear(&mut self, handle: u64, record: &ManifestRecord)
        requires
            old(self).wf(),
            is_registered(old(self)@, record.deep_view()),
        ensures
            final(self).wf(),
            final(self).booted_as(*old(self)),
            final(self)@ == untracked(
                unregistered(
                    KernelView { loaded: old(self)@.loaded.remove(handle), ..old(self)@ },
                    record.deep_view(),
                ),
                handle,
            ),
    {
        self.loaded_manifests.remove(&handle);
        match &record.payload {
            ManifestPayload::SpiDef(_) => {
                let gone = self.spi_registry.unregister(record.identifier.as_str());
            },
            ManifestPayload::Plugin(m) => {
                let gone = self.registry.unregister_plugin(record.identifier.as_str());
                let names = names_to_import(m);
                release_imports(
                    &mut self.step_import_owners,
                    &mut self.runtime,
                    record.identifier.as_str(),
                    &names,
                );
            },
        }
        untrack_users(&mut self.spi_role_users, handle);
    }

    /// Unloads a manifest.
    pub fn unload_manifest(&mut self, handle: ManifestHandle) -> (r: Result<(), KernelError>)
        requires
            old(self).wf(),
        ensures
            final(self).wf(),
            final(self).booted_as(*old(self)),
            plain(r) == unload_outcome(old(self)@, handle.0).0,
            final(self)@ == unload_outcome(old(self)@, handle.0).1,
    {
        let h: u64 = handle.0;
        let record = match self.loaded_manifests.get(&h) {
            Some(v) => v.duplicate(),
            None => {
                return Err(
                    KernelError::NotFound(
                        handle_words(
                            h,
                            " not loaded (already unloaded, or never registered via load_manifest)",
                        ),
                    ),
                );
            },
        };
        if record.immutable {
            return Err(
                KernelError::Validation(
                    handle_words(
                        h,
                        " is kernel-immutable (intrinsic step types or other boot-required manifest); cannot unload",
                    ),
                ),
            );
        }
        if let ManifestPayload::SpiDef(_) = &record.payload {
            if let Some(users) = self.spi_role_users.get(&record.identifier) {
                assert(users.deep_view().len() == users@.len());
                if users.len() > 0 {
                    let named = self.dependents_of(users, h);
                    let listed = join(&named, ", ");
                    let mut w = cat3(
                        "Cannot unload SPI def '",
                        record.identifier.as_str(),
                        "' — still claimed by plugin(s): ",
                    );
                    w.append(listed.as_str());
                    return Err(KernelError::Validation(w));
                }
            }
        }
        if !self.is_still_registered(&record) {
            self.loaded_manifests.remove(&h);
            return Err(KernelError::Runtime(drift_words(&record)));
        }
        self.clear(h, &record);
        Ok(())
    }
}

impl Rollback {
    /// There is a plan, or an error in its place, for every action of the retained plugin.
    pub open spec fn fits(&self, loaded: Map<u64, RecordView>, handle: u64) -> bool {
        loaded.contains_key(handle) && loaded[handle].payload is Plugin ==> self.survey.plans@.len()
            == loaded[handle].payload->Plugin_0.actions.len()
    }
}

impl<F: Fn(&str) -> Result<(), String>> Kernel<F> {
    /// Registers a retained document again.
    fn restore(&mut self, record: &ManifestRecord, back: Rollback) -> (r: Result<(), KernelError>)
        requires
            old(self).wf(),
            record.deep_view().payload is Plugin ==> back.survey.plans@.len()
                == record.deep_view().payload->Plugin_0.actions.len(),
        ensures
            final(self).wf(),
            final(self).booted_as(*old(self)),
            rollback_outcome(
                old(self)@,
                old(self).host(),
                old(self).categories(),
                record.deep_view(),
                back,
                plain(r),
                final(self)@,
            ),
    {
        let Rollback { survey, contract } = back;
        match &record.payload {
            ManifestPayload::SpiDef(json) => self.spi_registry.register(
                record.identifier.as_str(),
                json.as_str(),
                contract,
            ),
            ManifestPayload::Plugin(m) => {
                let copy = m.duplicate();
                assert(copy.actions.deep_view().len() == copy.actions@.len());
                self.register_plugin_in(record.namespace.as_str(), copy, survey)
            },
        }
    }

    /// Replaces a loaded manifest by a new document, in the same namespace and under the same handle;
    /// where the new document is refused the old one is put back.
    pub fn reload_manifest(
        &mut self,
        handle: ManifestHandle,
        new_json: &str,
        prep: Preparation,
        back: Rollback,
    ) -> (r: Result<(), KernelError>)
        requires
            old(self).wf(),
            prep.fits(),
            back.fits(old(self)@.loaded, handle.0),
        ensures
            final(self).wf(),
            final(self).booted_as(*old(self)),
            reload_outcome(
                old(self)@,
                old(self).host(),
                old(self).categories(),
                handle.0,
                new_json@,
                prep,
                back,
                plain(r),
                final(self)@,
            ),
    {
        let h: u64 = handle.0;
        let record = match self.loaded_manifests.get(&h) {
            Some(v) => v.duplicate(),
            None => {
                return Err(
                    KernelError::NotFound(
                        handle_words(h, " not loaded (cannot reload an unknown handle)"),
                    ),
                );
            },
        };
        if record.immutable {
            return Err(
                KernelError::Validation(
                    handle_words(
                        h,
                        " is kernel-immutable (intrinsic step types or other boot-required manifest); cannot reload",
                    ),
                ),
            );
        }
        if !self.is_still_registered(&record) {
            return Err(KernelError::Runtime(drift_words(&record)));
        }
        self.clear(h, &record);
        let ghost cleared = self@;
        let ghost host = self.host();
        let ghost categories = self.categories();
        let ghost view = record.deep_view();
        let done = self.register_classified_manifest(
            new_json,
            record.namespace.as_str(),
            false,
            prep,
        );
        match done {
            Ok(new_record) => {
                let ghost k2 = self@;
                let ghost new_view = new_record.deep_view();
                self.track_manifest(h, new_record);
                assert(document_outcome(
                    cleared,
                    host,
                    categories,
                    new_json@,
                    view.namespace,
                    false,
                    prep,
                    Ok(new_view),
                    k2,
                ));
                Ok(())
            },
            Err(e) => {
                assert(document_outcome(
                    cleared,
                    host,
                    categories,
                    new_json@,
                    view.namespace,
                    false,
                    prep,
                    Err(e@),
                    cleared,
                ));
                match self.restore(&record, back) {
                    Ok(()) => {
                        let ghost k3 = self@;
                        assert(rollback_outcome(
                            cleared,
                            host,
                            categories,
                            view,
                            back,
                            Ok(()),
                            k3,
                        ));
                        self.track_manifest(h, record);
                        Err(e)
                    },
                    Err(e2) => {
                        assert(rollback_outcome(
                            cleared,
                            host,
                            categories,
                            view,
                            back,
                            Err(e2@),
                            cleared,
                        ));
                        let first = e.message();
                        let second = e2.message();
                        let mut w = cat3(
                            "reload failed and rollback also failed — kernel state is inconsistent. original error: ",
                            first.as_str(),
                            ". rollback error: ",
                        );
                        w.append(second.as_str());
                        Err(KernelError::Runtime(w))
                    },
                }
            },
        }
    }
}

} // verus!
