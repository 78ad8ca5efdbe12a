//! Names and the namespaces that qualify them.
//!
//! A plugin has a bare name in its manifest. The embedder puts it into a namespace when it loads
//! the manifest, and its identity is then `<namespace>/<name>`; in the root namespace, which is
//! the empty one, the identity is the name alone. Namespaces are flat: the only namespace that
//! encloses another is the root. A manifest cannot spell the separator, so it can neither choose
//! its own namespace nor name another.

use vstd::prelude::*;

use crate::text::{
    after, before, cat2, cat3, cat5, has_char, lemma_first_index_is, same,
    split_once, strip_prefix, texts,
};

verus! {

/// What stands between a namespace and a name.
pub const NAMESPACE_SEPARATOR: char = '/';

/// What stands between a plugin and a step type that the plugin defines.
pub const STEP_TYPE_SEPARATOR: char = '.';

/// What a name is a name of.
#[derive(Debug, Clone, Copy, PartialEq, Eq, Structural)]
pub enum NameKind {
    Plugin,
    Role,
    Namespace,
    StepType,
    StepTypeSelector,
    StepId,
    AppCategorySegment,
    ImplRef,
}

/// A name that does not have the form that its kind asks for.
#[derive(Debug, Clone)]
pub struct NameError {
    pub kind: NameKind,
    pub name: String,
    pub rule: NameRule,
}

/// The form that a name failed to have.
#[derive(Debug, Clone, Copy, PartialEq, Eq, Structural)]
pub enum NameRule {
    /// Letters, digits and underscores, at least one.
    Identifier,
    /// An identifier that does not begin with a digit.
    DslIdentifier,
    /// `<name>` or `<plugin>.<name>`.
    StepTypeReference,
    /// `<plugin>.<name>`, under the plugin that declares it.
    OwnStepType,
    /// Segments of letters, digits, underscores and hyphens with a dot between each two.
    ImplRef,
    /// A bare name, which cannot carry the namespace separator.
    Bare,
}

/// What a [`NameError`] stands for.
pub struct NameErrorView {
    pub kind: NameKind,
    pub name: Seq<char>,
    pub rule: NameRule,
}

impl View for NameError {
    type V = NameErrorView;

    open spec fn view(&self) -> NameErrorView {
        NameErrorView { kind: self.kind, name: self.name@, rule: self.rule }
    }
}

impl NameKind {
    /// How an error message speaks of the kind.
    pub open spec fn label_text(self) -> Seq<char> {
        match self {
            NameKind::Plugin => "plugin name"@,
            NameKind::Role => "role name"@,
            NameKind::Namespace => "namespace"@,
            NameKind::StepType => "step type name"@,
            NameKind::StepTypeSelector => "step type selector"@,
            NameKind::StepId => "step id"@,
            NameKind::AppCategorySegment => "permission category segment"@,
            NameKind::ImplRef => "implRef"@,
        }
    }

    /// How an error message speaks of the kind.
    pub fn label(&self) -> (r: &'static str)
        ensures
            r@ == self.label_text(),
    {
        match self {
            NameKind::Plugin => "plugin name",
            NameKind::Role => "role name",
            NameKind::Namespace => "namespace",
            NameKind::StepType => "step type name",
            NameKind::StepTypeSelector => "step type selector",
            NameKind::StepId => "step id",
            NameKind::AppCategorySegment => "permission category segment",
            NameKind::ImplRef => "implRef",
        }
    }
}

impl NameRule {
    /// The rule in words.
    pub open spec fn rule_text(self) -> Seq<char> {
        match self {
            NameRule::Identifier => "must be letters, digits and underscores, at least one"@,
            NameRule::DslIdentifier =>
                "must be letters, digits and underscores, at least one, and not begin with a digit"@,
            NameRule::StepTypeReference => "must be `<name>` or `<plugin>.<name>`"@,
            NameRule::OwnStepType =>
                "must be `<plugin>.<name>`, under the name of the plugin that declares it"@,
            NameRule::ImplRef =>
                "must be segments of letters, digits, underscores and hyphens, with a dot between each two"@,
            NameRule::Bare => "must be a bare name: '/' is reserved for namespaces"@,
        }
    }

    fn words(&self) -> (r: &'static str)
        ensures
            r@ == self.rule_text(),
    {
        match self {
            NameRule::Identifier => "must be letters, digits and underscores, at least one",
            NameRule::DslIdentifier =>
                "must be letters, digits and underscores, at least one, and not begin with a digit",
            NameRule::StepTypeReference => "must be `<name>` or `<plugin>.<name>`",
            NameRule::OwnStepType =>
                "must be `<plugin>.<name>`, under the name of the plugin that declares it",
            NameRule::ImplRef =>
                "must be segments of letters, digits, underscores and hyphens, with a dot between each two",
            NameRule::Bare => "must be a bare name: '/' is reserved for namespaces",
        }
    }
}

impl NameErrorView {
    /// The error in words.
    pub open spec fn text(self) -> Seq<char> {
        "invalid "@ + self.kind.label_text() + " '"@ + self.name + "': "@ + self.rule.rule_text()
    }
}

impl NameError {
    /// The error in words.
    pub fn message(&self) -> (r: String)
        ensures
            r@ == self@.text(),
    {
        let mut r = cat5("invalid ", self.kind.label(), " '", self.name.as_str(), "': ");
        r.append(self.rule.words());
        r
    }
}

/// A letter, a digit or an underscore.
pub open spec fn is_name_char(c: char) -> bool {
    'a' <= c <= 'z' || 'A' <= c <= 'Z' || '0' <= c <= '9' || c == '_'
}

/// A name: letters, digits and underscores, at least one.
pub open spec fn is_name(s: Seq<char>) -> bool {
    s.len() > 0 && forall|i: int| 0 <= i < s.len() ==> is_name_char(#[trigger] s[i])
}

/// The rule that a name of this kind has to meet.
pub open spec fn rule_of(kind: NameKind) -> NameRule {
    if kind == NameKind::StepId {
        NameRule::DslIdentifier
    } else {
        NameRule::Identifier
    }
}

/// A name that can stand for a thing of this kind: a step id does not begin with a digit.
pub open spec fn is_name_of(kind: NameKind, s: Seq<char>) -> bool {
    is_name(s) && (kind == NameKind::StepId ==> !('0' <= s[0] <= '9'))
}

/// The error for a name of this kind, where it has one.
pub open spec fn name_fault(kind: NameKind, s: Seq<char>) -> Option<NameErrorView> {
    if is_name_of(kind, s) {
        None
    } else {
        Some(NameErrorView { kind, name: s, rule: rule_of(kind) })
    }
}

/// A function that checks a name reports exactly the fault that the name has.
pub open spec fn reports(r: Result<(), NameError>, fault: Option<NameErrorView>) -> bool {
    match fault {
        None => r is Ok,
        Some(e) => r is Err && r->Err_0@ == e,
    }
}

/// Whether `s` is letters, digits and underscores, at least one.
pub fn is_identifier(s: &str) -> (r: bool)
    ensures
        r == is_name(s@),
{
    let n: usize = s.unicode_len();
    if n == 0 {
        return false;
    }
    for c in it: s.chars()
        invariant
            it.seq() == s@,
            it.index() <= s@.len(),
            forall|i: int| 0 <= i < it.index() ==> is_name_char(#[trigger] s@[i]),
    {
        let ok = ('a' <= c && c <= 'z') || ('A' <= c && c <= 'Z') || ('0' <= c && c <= '9') || c
            == '_';
        if !ok {
            assert(!is_name_char(s@[it.index() as int]));
            return false;
        }
    }
    true
}

/// Whether `name` can name a thing of this kind.
pub fn validate_name(kind: NameKind, name: &str) -> (r: Result<(), NameError>)
    ensures
        reports(r, name_fault(kind, name@)),
{
    let ok = is_identifier(name) && (kind != NameKind::StepId || {
        let c = name.get_char(0);
        !('0' <= c && c <= '9')
    });
    if ok {
        Ok(())
    } else if kind == NameKind::StepId {
        Err(NameError { kind, name: name.to_owned(), rule: NameRule::DslIdentifier })
    } else {
        Err(NameError { kind, name: name.to_owned(), rule: NameRule::Identifier })
    }
}

/// Whether `name` can refer to a thing of this kind. A reference is bare, so it has the same form
/// as a name.
pub fn validate_reference(kind: NameKind, name: &str) -> (r: Result<(), NameError>)
    ensures
        reports(r, name_fault(kind, name@)),
{
    validate_name(kind, name)
}

/// The error for a namespace: the root is empty, any other is a name.
pub open spec fn namespace_fault(s: Seq<char>) -> Option<NameErrorView> {
    if s.len() == 0 {
        None
    } else {
        name_fault(NameKind::Namespace, s)
    }
}

/// Whether `namespace` is the root or a name.
pub fn validate_namespace(namespace: &str) -> (r: Result<(), NameError>)
    ensures
        reports(r, namespace_fault(namespace@)),
{
    if namespace.unicode_len() == 0 {
        Ok(())
    } else {
        validate_name(NameKind::Namespace, namespace)
    }
}

/// `<name>` or `<plugin>.<name>`.
pub open spec fn is_step_type_reference(s: Seq<char>) -> bool {
    is_name(s) || (s.contains('.') && is_name(before(s, '.')) && is_name(after(s, '.')))
}

/// The error for the way in which a step type is written, where it has one.
pub open spec fn step_type_reference_fault(s: Seq<char>) -> Option<NameErrorView> {
    if is_step_type_reference(s) {
        None
    } else {
        Some(
            NameErrorView { kind: NameKind::StepType, name: s, rule: NameRule::StepTypeReference },
        )
    }
}

/// Whether `s` is written as a step type is: bare for one of the kernel's, `<plugin>.<name>` for
/// one that a plugin defines.
pub fn validate_step_type_reference(s: &str) -> (r: Result<(), NameError>)
    ensures
        reports(r, step_type_reference_fault(s@)),
{
    let ok = is_identifier(s) || match split_once(s, '.') {
        (head, Some(tail)) => is_identifier(head) && is_identifier(tail),
        (_, None) => false,
    };
    if ok {
        Ok(())
    } else {
        Err(
            NameError {
                kind: NameKind::StepType,
                name: s.to_owned(),
                rule: NameRule::StepTypeReference,
            },
        )
    }
}

/// `<plugin>.<name>` under the plugin that declares it; bare for the kernel alone.
pub open spec fn is_own_step_type(s: Seq<char>, plugin: Seq<char>, kernel_owned: bool) -> bool {
    ||| kernel_owned && is_name(s)
    ||| {
        &&& (plugin + seq!['.']).is_prefix_of(s)
        &&& is_name(s.skip(plugin.len() as int + 1))
    }
}

/// The error for the name of a step type that `plugin` declares, where it has one.
pub open spec fn step_type_name_fault(
    s: Seq<char>,
    plugin: Seq<char>,
    kernel_owned: bool,
) -> Option<NameErrorView> {
    if is_own_step_type(s, plugin, kernel_owned) {
        None
    } else {
        Some(NameErrorView { kind: NameKind::StepType, name: s, rule: NameRule::OwnStepType })
    }
}

/// Whether `plugin` may declare a step type by this name.
pub fn validate_step_type_name(name: &str, plugin: &str, kernel_owned: bool) -> (r: Result<
    (),
    NameError,
>)
    ensures
        reports(r, step_type_name_fault(name@, plugin@, kernel_owned)),
{
    let prefix = cat2(plugin, ".");
    proof {
        reveal_strlit(".");
        assert("."@ =~= seq!['.']);
    }
    let ok = (kernel_owned && is_identifier(name)) || match strip_prefix(name, prefix.as_str()) {
        Some(local) => is_identifier(local),
        None => false,
    };
    if ok {
        Ok(())
    } else {
        Err(
            NameError {
                kind: NameKind::StepType,
                name: name.to_owned(),
                rule: NameRule::OwnStepType,
            },
        )
    }
}

/// A character of a segment of an implRef.
pub open spec fn is_segment_char(c: char) -> bool {
    is_name_char(c) || c == '-'
}

/// Segments of letters, digits, underscores and hyphens, with a dot between each two.
pub open spec fn is_impl_ref(s: Seq<char>) -> bool {
    &&& s.len() > 0
    &&& s[0] != '.'
    &&& s.last() != '.'
    &&& forall|i: int| 0 <= i < s.len() ==> is_segment_char(#[trigger] s[i]) || s[i] == '.'
    &&& forall|i: int| 0 < i < s.len() ==> !(#[trigger] s[i] == '.' && s[i - 1] == '.')
}

/// The error for an implRef, where it has one.
pub open spec fn impl_ref_fault(s: Seq<char>) -> Option<NameErrorView> {
    if is_impl_ref(s) {
        None
    } else {
        Some(NameErrorView { kind: NameKind::ImplRef, name: s, rule: NameRule::ImplRef })
    }
}

/// Whether `s` has the form of an implRef.
pub fn validate_impl_ref(s: &str) -> (r: Result<(), NameError>)
    ensures
        reports(r, impl_ref_fault(s@)),
{
    let bad = NameError { kind: NameKind::ImplRef, name: s.to_owned(), rule: NameRule::ImplRef };
    let n: usize = s.unicode_len();
    if n == 0 {
        return Err(bad);
    }
    if s.get_char(0) == '.' || s.get_char(n - 1) == '.' {
        return Err(bad);
    }
    let mut last: char = '.';
    for c in it: s.chars()
        invariant
            it.seq() == s@,
            it.index() <= s@.len(),
            s@.len() > 0,
            s@[0] != '.',
            it.index() > 0 ==> last == s@[it.index() as int - 1],
            bad@ == (NameErrorView {
                kind: NameKind::ImplRef,
                name: s@,
                rule: NameRule::ImplRef,
            }),
            forall|i: int|
                0 <= i < it.index() ==> is_segment_char(#[trigger] s@[i]) || s@[i] == '.',
            forall|i: int| 0 < i < it.index() ==> !(#[trigger] s@[i] == '.' && s@[i - 1] == '.'),
    {
        let segment = ('a' <= c && c <= 'z') || ('A' <= c && c <= 'Z') || ('0' <= c && c <= '9')
            || c == '_' || c == '-';
        if !segment && (c != '.' || last == '.') {
            assert(s@[it.index() as int] == c);
            return Err(bad);
        }
        last = c;
    }
    Ok(())
}

/// The plugin that an implRef of three segments belongs to: the segment in the middle.
pub open spec fn owner_of_impl_ref(s: Seq<char>) -> Option<Seq<char>> {
    let rest = after(s, '.');
    if s.contains('.') && rest.contains('.') && !after(rest, '.').contains('.') {
        Some(before(rest, '.'))
    } else {
        None
    }
}

/// The plugin that an implRef of three segments belongs to: the segment in the middle.
pub fn impl_ref_owner(s: &str) -> (r: Option<&str>)
    ensures
        match r {
            Some(owner) => owner_of_impl_ref(s@) == Some(owner@),
            None => owner_of_impl_ref(s@) is None,
        },
{
    match split_once(s, '.') {
        (_, Some(rest)) => match split_once(rest, '.') {
            (owner, Some(step)) => if has_char(step, '.') {
                None
            } else {
                Some(owner)
            },
            (_, None) => None,
        },
        (_, None) => None,
    }
}

/// The identity of `name` in `namespace`.
pub open spec fn qualified(namespace: Seq<char>, name: Seq<char>) -> Seq<char> {
    if namespace.len() == 0 {
        name
    } else {
        namespace + "/"@ + name
    }
}

/// The namespace of an identity: empty for the root.
pub open spec fn namespace_part(identity: Seq<char>) -> Seq<char> {
    if identity.contains('/') {
        before(identity, '/')
    } else {
        Seq::empty()
    }
}

/// An identity without its namespace.
pub open spec fn local_part(identity: Seq<char>) -> Seq<char> {
    if identity.contains('/') {
        after(identity, '/')
    } else {
        identity
    }
}

/// A namespace and those that enclose it, from the inside out.
pub open spec fn chain(namespace: Seq<char>) -> Seq<Seq<char>> {
    if namespace.len() == 0 {
        seq![namespace]
    } else {
        seq![namespace, Seq::<char>::empty()]
    }
}

/// Whether the namespace of `target` is that of `caller` or encloses it.
pub open spec fn on_chain(target: Seq<char>, caller: Seq<char>) -> bool {
    chain(namespace_part(caller)).contains(namespace_part(target))
}

/// The identity of `name` in `namespace`.
pub fn qualify(namespace: &str, name: &str) -> (r: String)
    ensures
        r@ == qualified(namespace@, name@),
{
    if namespace.unicode_len() == 0 {
        name.to_owned()
    } else {
        cat3(namespace, "/", name)
    }
}

/// The namespace of an identity: empty for the root.
pub fn namespace_of(identity: &str) -> (r: &str)
    ensures
        r@ == namespace_part(identity@),
{
    match split_once(identity, '/') {
        (namespace, Some(_)) => namespace,
        (_, None) => {
            let e = identity.substring_char(0, 0);
            assert(e@ =~= Seq::<char>::empty());
            e
        },
    }
}

/// An identity without its namespace.
pub fn local_name_of(identity: &str) -> (r: &str)
    ensures
        r@ == local_part(identity@),
{
    match split_once(identity, '/') {
        (_, Some(name)) => name,
        (_, None) => identity,
    }
}

/// A namespace and those that enclose it, from the inside out.
pub fn ancestor_namespaces(namespace: &str) -> (r: Vec<String>)
    ensures
        texts(r@) == chain(namespace@),
{
    let mut r: Vec<String> = Vec::new();
    r.push(namespace.to_owned());
    if namespace.unicode_len() > 0 {
        r.push(String::new());
    }
    assert(texts(r@) =~= chain(namespace@));
    r
}

/// Whether two identities are in one namespace.
pub fn same_namespace(a: &str, b: &str) -> (r: bool)
    ensures
        r == (namespace_part(a@) == namespace_part(b@)),
{
    same(namespace_of(a), namespace_of(b))
}

/// Whether the namespace of `target` is that of `caller` or encloses it.
pub fn is_on_chain(target: &str, caller: &str) -> (r: bool)
    ensures
        r == on_chain(target@, caller@),
{
    let t = namespace_of(target);
    let c = namespace_of(caller);
    proof {
        let links = chain(c@);
        assert(links[0] == c@);
        if c@.len() > 0 {
            assert(links[1] == Seq::<char>::empty());
        }
        if t@.len() == 0 {
            assert(t@ =~= Seq::<char>::empty());
            if c@.len() == 0 {
                assert(c@ =~= t@);
            }
        }
    }
    same(t, c) || t.unicode_len() == 0
}

/// The identities that a bare reference of `caller` can denote, nearest first.
pub open spec fn reference_candidates(caller: Seq<char>, reference: Seq<char>) -> Seq<Seq<char>> {
    chain(namespace_part(caller)).map_values(|ns: Seq<char>| qualified(ns, reference))
}

/// The error for a reference that names a namespace.
pub open spec fn qualified_reference_fault(reference: Seq<char>) -> NameErrorView {
    NameErrorView { kind: NameKind::Plugin, name: reference, rule: NameRule::Bare }
}

/// The identities that a bare reference of `caller` can denote, nearest first. A reference that
/// carries the separator is refused: a plugin cannot name a namespace.
pub fn plugin_reference_candidates(caller: &str, reference: &str) -> (r: Result<
    Vec<String>,
    NameError,
>)
    ensures
        match r {
            Ok(v) => !reference@.contains('/') && texts(v@) == reference_candidates(
                caller@,
                reference@,
            ),
            Err(e) => reference@.contains('/') && e@ == qualified_reference_fault(reference@),
        },
{
    if has_char(reference, NAMESPACE_SEPARATOR) {
        return Err(
            NameError {
                kind: NameKind::Plugin,
                name: reference.to_owned(),
                rule: NameRule::Bare,
            },
        );
    }
    let ns = namespace_of(caller);
    let mut r: Vec<String> = Vec::new();
    r.push(qualify(ns, reference));
    if ns.unicode_len() > 0 {
        r.push(reference.to_owned());
    }
    assert(texts(r@) =~= reference_candidates(caller@, reference@));
    Ok(r)
}

/// The namespace and the name can be read back from an identity, whatever the name, as long as the
/// namespace is a valid one and a root name carries no separator.
pub proof fn law_identity_reads_back(namespace: Seq<char>, name: Seq<char>)
    requires
        namespace_fault(namespace) is None,
        namespace.len() == 0 ==> !name.contains('/'),
    ensures
        namespace_part(qualified(namespace, name)) == namespace,
        local_part(qualified(namespace, name)) == name,
{
    let id = qualified(namespace, name);
    reveal_strlit("/");
    if namespace.len() == 0 {
        assert(namespace =~= Seq::<char>::empty());
    } else {
        let k = namespace.len() as int;
        assert(id[k] == '/');
        assert(id.contains('/'));
        assert forall|j: int| 0 <= j < k implies id[j] != '/' by {
            assert(id[j] == namespace[j]);
            assert(is_name_char(namespace[j]));
        }
        lemma_first_index_is(id, '/', k);
        assert(before(id, '/') =~= namespace);
        assert(after(id, '/') =~= name);
    }
}

/// Two plugins with one identity have one namespace and one name: the same manifest name in two
/// namespaces makes two plugins.
pub proof fn law_identities_are_distinct(
    namespace1: Seq<char>,
    name1: Seq<char>,
    namespace2: Seq<char>,
    name2: Seq<char>,
)
    requires
        namespace_fault(namespace1) is None,
        namespace_fault(namespace2) is None,
        is_name(name1),
        is_name(name2),
        qualified(namespace1, name1) == qualified(namespace2, name2),
    ensures
        namespace1 == namespace2,
        name1 == name2,
{
    lemma_name_has_no_separator(name1);
    lemma_name_has_no_separator(name2);
    law_identity_reads_back(namespace1, name1);
    law_identity_reads_back(namespace2, name2);
}

/// A name cannot carry the namespace separator, so a manifest cannot name itself into a namespace.
pub proof fn lemma_name_has_no_separator(name: Seq<char>)
    requires
        is_name(name),
    ensures
        !name.contains('/'),
{
    if name.contains('/') {
        let k = name.index_of('/');
        assert(is_name_char(name[k]));
    }
}

/// A chain only leads upward: what is on the chain of a root plugin is in the root namespace, and
/// what is on the chain of a namespaced plugin is in that namespace or in the root.
pub proof fn law_chain_leads_upward(target: Seq<char>, caller: Seq<char>)
    requires
        on_chain(target, caller),
    ensures
        namespace_part(target) == namespace_part(caller) || namespace_part(target).len() == 0,
{
    let links = chain(namespace_part(caller));
    let k = links.index_of(namespace_part(target));
    assert(links[k] == namespace_part(target));
}

} // verus!
