//! Permission entries: what a manifest asks for, in the form `<category>:<value>`.
//!
//! The kernel has six categories of its own: `network`, `blobs`, `step_type`, `invoke`, `provide`
//! and `bind`. A category with a dot in its name belongs to the embedder; a category without one
//! that is not among the six is refused, so that a category added later cannot change what a
//! deployed grant means. For the same reason `*`, `?` and `[` are refused outside the few places
//! where a wildcard has a meaning. Nothing is granted that no entry grants.

use vstd::prelude::*;

use crate::identity::{
    impl_ref_fault, name_fault, reports, step_type_reference_fault, validate_impl_ref,
    validate_name, validate_reference, validate_step_type_reference, NameError, NameErrorView,
    NameKind,
};
use crate::json::{Json, JsonView};
use crate::text::{
    after, before, cat2, cat3, cat4, cat5, cat7, char_text, ends_with, has_char, join, joined,
    lemma_first_index, lex_sorted, lower, same, sort, split_once, split_two, starts_with,
    strip_prefix, strip_suffix, texts, to_lower, trim, trimmed,
};

pub mod laws;

verus! {

/// A parsed permission entry.
#[derive(Debug, Clone, PartialEq, Eq)]
#[non_exhaustive]
pub enum Permission {
    /// `network:egress:<host pattern>`.
    NetworkEgress(HostPattern),
    /// `blobs:<op>:<path pattern>`.
    Blobs(BlobOp, PathPattern),
    /// `step_type:<type>`: use of a step type that another plugin defines.
    StepType(String),
    /// `invoke:plugin:<name|*>`: dispatch into a plugin.
    InvokePlugin(NamePattern),
    /// `invoke:role:<name|*>`: dispatch by role.
    InvokeRole(NamePattern),
    /// `provide:step_type:<type>[:<selector>]`: the intent to supply a step type's body.
    ProvideStepType { step_type: String, selector: Option<String> },
    /// `bind:native_impl:<implRef>`: the intent to bind a native body that another plugin ships.
    BindNativeImpl(String),
    /// An embedder's own category, with what follows its colon.
    AppDefined { kind: String, value: Json },
}

/// What can be done with a blob.
#[derive(Debug, Clone, Copy, PartialEq, Eq, Structural)]
#[non_exhaustive]
pub enum BlobOp {
    Read,
    Write,
    Delete,
    List,
    Stat,
    Watch,
}

/// `*` or one exact name.
#[derive(Debug, Clone, PartialEq, Eq)]
#[non_exhaustive]
pub enum NamePattern {
    Any,
    Exact(String),
}

/// `*`, `*.<suffix>` or one exact host.
#[derive(Debug, Clone, PartialEq, Eq)]
#[non_exhaustive]
pub enum HostPattern {
    Any,
    Suffix(String),
    Exact(String),
}

/// `*`, `<prefix>/*` or one exact path.
#[derive(Debug, Clone, PartialEq, Eq)]
#[non_exhaustive]
pub enum PathPattern {
    Any,
    Prefix(String),
    Exact(String),
}

/// What a [`NamePattern`] stands for.
pub enum NamePatternView {
    Any,
    Exact(Seq<char>),
}

/// What a [`HostPattern`] stands for.
pub enum HostPatternView {
    Any,
    Suffix(Seq<char>),
    Exact(Seq<char>),
}

/// What a [`PathPattern`] stands for.
pub enum PathPatternView {
    Any,
    Prefix(Seq<char>),
    Exact(Seq<char>),
}

/// What a [`Permission`] stands for.
pub enum PermissionView {
    NetworkEgress(HostPatternView),
    Blobs(BlobOp, PathPatternView),
    StepType(Seq<char>),
    InvokePlugin(NamePatternView),
    InvokeRole(NamePatternView),
    ProvideStepType { step_type: Seq<char>, selector: Option<Seq<char>> },
    BindNativeImpl(Seq<char>),
    AppDefined { kind: Seq<char>, value: JsonView },
}

impl View for NamePattern {
    type V = NamePatternView;

    open spec fn view(&self) -> NamePatternView {
        match self {
            NamePattern::Any => NamePatternView::Any,
            NamePattern::Exact(s) => NamePatternView::Exact(s@),
        }
    }
}

impl View for HostPattern {
    type V = HostPatternView;

    open spec fn view(&self) -> HostPatternView {
        match self {
            HostPattern::Any => HostPatternView::Any,
            HostPattern::Suffix(s) => HostPatternView::Suffix(s@),
            HostPattern::Exact(s) => HostPatternView::Exact(s@),
        }
    }
}

impl View for PathPattern {
    type V = PathPatternView;

    open spec fn view(&self) -> PathPatternView {
        match self {
            PathPattern::Any => PathPatternView::Any,
            PathPattern::Prefix(s) => PathPatternView::Prefix(s@),
            PathPattern::Exact(s) => PathPatternView::Exact(s@),
        }
    }
}

/// The view of an optional string.
pub open spec fn opt_text(s: Option<String>) -> Option<Seq<char>> {
    match s {
        Some(t) => Some(t@),
        None => None,
    }
}

impl View for Permission {
    type V = PermissionView;

    open spec fn view(&self) -> PermissionView {
        match self {
            Permission::NetworkEgress(p) => PermissionView::NetworkEgress(p@),
            Permission::Blobs(op, p) => PermissionView::Blobs(*op, p@),
            Permission::StepType(s) => PermissionView::StepType(s@),
            Permission::InvokePlugin(p) => PermissionView::InvokePlugin(p@),
            Permission::InvokeRole(p) => PermissionView::InvokeRole(p@),
            Permission::ProvideStepType { step_type, selector } => PermissionView::ProvideStepType {
                step_type: step_type@,
                selector: opt_text(*selector),
            },
            Permission::BindNativeImpl(s) => PermissionView::BindNativeImpl(s@),
            Permission::AppDefined { kind, value } => PermissionView::AppDefined {
                kind: kind@,
                value: value@,
            },
        }
    }
}

/// Why a permission entry is refused.
#[derive(Debug, Clone, PartialEq, Eq)]
#[non_exhaustive]
pub enum PermissionParseError {
    Empty,
    /// A category without a dot that the kernel does not define: the entry and the category.
    ReservedCategory(String, String),
    /// A category with a dot that no embedder declared.
    UnknownAppCategory { raw: String, category: String, known: String },
    /// A declared category whose validator refused the value, with the validator's words.
    AppValueRejected { raw: String, category: String, reason: String },
    /// The entry, and what is wrong with it.
    Malformed(String, String),
}

/// What a [`PermissionParseError`] stands for.
pub enum PermissionFault {
    Empty,
    ReservedCategory(Seq<char>, Seq<char>),
    UnknownAppCategory { raw: Seq<char>, category: Seq<char>, known: Seq<char> },
    AppValueRejected { raw: Seq<char>, category: Seq<char>, reason: Seq<char> },
    Malformed(Seq<char>, Seq<char>),
}

impl View for PermissionParseError {
    type V = PermissionFault;

    open spec fn view(&self) -> PermissionFault {
        match self {
            PermissionParseError::Empty => PermissionFault::Empty,
            PermissionParseError::ReservedCategory(raw, category) =>
                PermissionFault::ReservedCategory(raw@, category@),
            PermissionParseError::UnknownAppCategory { raw, category, known } =>
                PermissionFault::UnknownAppCategory {
                raw: raw@,
                category: category@,
                known: known@,
            },
            PermissionParseError::AppValueRejected { raw, category, reason } =>
                PermissionFault::AppValueRejected {
                raw: raw@,
                category: category@,
                reason: reason@,
            },
            PermissionParseError::Malformed(raw, why) => PermissionFault::Malformed(raw@, why@),
        }
    }
}

impl PermissionFault {
    /// The error in words.
    pub open spec fn text(self) -> Seq<char> {
        match self {
            PermissionFault::Empty => "empty permission entry"@,
            PermissionFault::ReservedCategory(raw, category) => "'"@ + raw
                + "' uses the unrecognised category '"@ + category
                + "'. Category names without a dot are reserved for the kernel (network, blobs, step_type, invoke, provide, bind); embedder-defined categories must be namespaced, e.g. 'acme."@
                + category + ":...'"@,
            PermissionFault::UnknownAppCategory { raw, category, known } => "'"@ + raw
                + "' uses the embedder category '"@ + category
                + "', which this kernel does not define. "@ + known,
            PermissionFault::AppValueRejected { raw, category, reason } => "'"@ + raw
                + "' is not a valid '"@ + category + "' permission: "@ + reason,
            PermissionFault::Malformed(raw, why) => "malformed permission '"@ + raw + "': "@ + why,
        }
    }
}

impl PermissionParseError {
    /// The error in words.
    pub fn message(&self) -> (r: String)
        ensures
            r@ == self@.text(),
    {
        match self {
            PermissionParseError::Empty => "empty permission entry".to_owned(),
            PermissionParseError::ReservedCategory(raw, category) => cat7(
                "'",
                raw.as_str(),
                "' uses the unrecognised category '",
                category.as_str(),
                "'. Category names without a dot are reserved for the kernel (network, blobs, step_type, invoke, provide, bind); embedder-defined categories must be namespaced, e.g. 'acme.",
                category.as_str(),
                ":...'",
            ),
            PermissionParseError::UnknownAppCategory { raw, category, known } => {
                let mut r = cat5(
                    "'",
                    raw.as_str(),
                    "' uses the embedder category '",
                    category.as_str(),
                    "', which this kernel does not define. ",
                );
                r.append(known.as_str());
                r
            },
            PermissionParseError::AppValueRejected { raw, category, reason } => {
                let mut r = cat5(
                    "'",
                    raw.as_str(),
                    "' is not a valid '",
                    category.as_str(),
                    "' permission: ",
                );
                r.append(reason.as_str());
                r
            },
            PermissionParseError::Malformed(raw, why) => cat4(
                "malformed permission '",
                raw.as_str(),
                "': ",
                why.as_str(),
            ),
        }
    }
}

impl BlobOp {
    /// The operation as an entry spells it.
    pub open spec fn op_text(self) -> Seq<char> {
        match self {
            BlobOp::Read => "read"@,
            BlobOp::Write => "write"@,
            BlobOp::Delete => "delete"@,
            BlobOp::List => "list"@,
            BlobOp::Stat => "stat"@,
            BlobOp::Watch => "watch"@,
        }
    }

    /// The operation as an entry spells it.
    pub fn as_str(&self) -> (r: &'static str)
        ensures
            r@ == self.op_text(),
    {
        match self {
            BlobOp::Read => "read",
            BlobOp::Write => "write",
            BlobOp::Delete => "delete",
            BlobOp::List => "list",
            BlobOp::Stat => "stat",
            BlobOp::Watch => "watch",
        }
    }
}

impl NamePatternView {
    /// Whether the pattern covers `name`.
    pub open spec fn covers(self, name: Seq<char>) -> bool {
        match self {
            NamePatternView::Any => true,
            NamePatternView::Exact(n) => n == name,
        }
    }
}

impl NamePattern {
    /// Whether the pattern covers `name`.
    pub fn matches(&self, name: &str) -> (r: bool)
        ensures
            r == self@.covers(name@),
    {
        match self {
            NamePattern::Any => true,
            NamePattern::Exact(n) => same(n.as_str(), name),
        }
    }
}

impl HostPatternView {
    /// Whether the pattern covers `host`, whatever the case of its ASCII letters: a suffix covers
    /// itself and the hosts that end in a dot and the suffix.
    pub open spec fn covers(self, host: Seq<char>) -> bool {
        match self {
            HostPatternView::Any => true,
            HostPatternView::Exact(h) => lower(h) == lower(host),
            HostPatternView::Suffix(s) => lower(host) == lower(s) || lower(
                "."@ + s,
            ).is_suffix_of(lower(host)),
        }
    }
}

impl HostPattern {
    /// Whether the pattern covers `host`.
    pub fn matches(&self, host: &str) -> (r: bool)
        ensures
            r == self@.covers(host@),
    {
        match self {
            HostPattern::Any => true,
            HostPattern::Exact(h) => to_lower(h.as_str()) == to_lower(host),
            HostPattern::Suffix(suffix) => {
                let host_lower = to_lower(host);
                if host_lower == to_lower(suffix.as_str()) {
                    return true;
                }
                let with_dot = cat2(".", suffix.as_str());
                let suffix_lower = to_lower(with_dot.as_str());
                ends_with(host_lower.as_str(), suffix_lower.as_str())
            },
        }
    }
}

impl PathPatternView {
    /// Whether the pattern covers `key`: a prefix covers itself and what follows it after a slash.
    pub open spec fn covers(self, key: Seq<char>) -> bool {
        match self {
            PathPatternView::Any => true,
            PathPatternView::Exact(p) => p == key,
            PathPatternView::Prefix(p) => key == p || (p + "/"@).is_prefix_of(key),
        }
    }
}

impl PathPattern {
    /// Whether the pattern covers `key`.
    pub fn matches(&self, key: &str) -> (r: bool)
        ensures
            r == self@.covers(key@),
    {
        match self {
            PathPattern::Any => true,
            PathPattern::Exact(p) => same(p.as_str(), key),
            PathPattern::Prefix(prefix) => {
                if same(key, prefix.as_str()) {
                    return true;
                }
                let with_slash = cat2(prefix.as_str(), "/");
                starts_with(key, with_slash.as_str())
            },
        }
    }
}

/// The characters that are refused outside a wildcard's own place.
pub open spec fn is_glob_char(c: char) -> bool {
    c == '*' || c == '?' || c == '['
}

/// The first character of `s` that is refused, where there is one.
pub open spec fn first_glob_char(s: Seq<char>) -> Option<char>
    decreases s.len(),
{
    if s.len() == 0 {
        None
    } else if is_glob_char(s[0]) {
        Some(s[0])
    } else {
        first_glob_char(s.drop_first())
    }
}

/// The refusal of the first character of `s` that is refused, where there is one.
pub open spec fn glob_fault(raw: Seq<char>, field: Seq<char>, s: Seq<char>) -> Option<
    PermissionFault,
> {
    match first_glob_char(s) {
        Some(c) => Some(
            PermissionFault::Malformed(
                raw,
                field + " contains reserved character '"@ + seq![c]
                    + "' outside a supported wildcard position. Supported shapes are '*' alone, '*.suffix' for hosts, and 'prefix/*' for paths; '*', '?' and '[' are reserved elsewhere for a future glob syntax"@,
            ),
        ),
        None => None,
    }
}

/// A refusal for what is wrong with a name.
pub open spec fn named_fault(raw: Seq<char>, e: Option<NameErrorView>) -> Option<PermissionFault> {
    match e {
        Some(e) => Some(PermissionFault::Malformed(raw, e.text())),
        None => None,
    }
}

/// A check reports exactly the given refusal.
pub open spec fn refuses(
    r: Result<(), PermissionParseError>,
    fault: Option<PermissionFault>,
) -> bool {
    match fault {
        None => r is Ok,
        Some(e) => r is Err && r->Err_0@ == e,
    }
}

/// The first refusal of two.
pub open spec fn first_of(
    a: Option<PermissionFault>,
    b: Option<PermissionFault>,
) -> Option<PermissionFault> {
    if a is Some {
        a
    } else {
        b
    }
}

/// `value`, unless there is a refusal.
pub open spec fn unless<T>(fault: Option<PermissionFault>, value: T) -> Result<T, PermissionFault> {
    match fault {
        Some(e) => Err(e),
        None => Ok(value),
    }
}

fn malformed(raw: &str, why: String) -> (r: PermissionParseError)
    ensures
        r@ == PermissionFault::Malformed(raw@, why@),
{
    PermissionParseError::Malformed(raw.to_owned(), why)
}

proof fn lemma_first_glob_char(s: Seq<char>, i: int)
    requires
        0 <= i <= s.len(),
        forall|j: int| 0 <= j < i ==> !is_glob_char(#[trigger] s[j]),
    ensures
        first_glob_char(s) == first_glob_char(s.skip(i)),
    decreases i,
{
    if i == 0 {
        assert(s.skip(0) =~= s);
    } else {
        let t = s.drop_first();
        assert forall|j: int| 0 <= j < i - 1 implies !is_glob_char(#[trigger] t[j]) by {
            assert(t[j] == s[j + 1]);
        }
        lemma_first_glob_char(t, i - 1);
        assert(t.skip(i - 1) =~= s.skip(i));
        assert(!is_glob_char(s[0]));
    }
}

/// Refuses any reserved character in `s`.
pub fn reject_glob_chars(raw: &str, field: &str, s: &str) -> (r: Result<(), PermissionParseError>)
    ensures
        refuses(r, glob_fault(raw@, field@, s@)),
{
    for c in it: s.chars()
        invariant
            it.seq() == s@,
            it.index() <= s@.len(),
            forall|j: int| 0 <= j < it.index() ==> !is_glob_char(#[trigger] s@[j]),
    {
        if c == '*' || c == '?' || c == '[' {
            proof {
                lemma_first_glob_char(s@, it.index() as int);
                assert(s@.skip(it.index() as int)[0] == c);
            }
            let shown = char_text(c);
            return Err(
                malformed(
                    raw,
                    cat4(
                        field,
                        " contains reserved character '",
                        shown.as_str(),
                        "' outside a supported wildcard position. Supported shapes are '*' alone, '*.suffix' for hosts, and 'prefix/*' for paths; '*', '?' and '[' are reserved elsewhere for a future glob syntax",
                    ),
                ),
            );
        }
    }
    proof {
        lemma_first_glob_char(s@, s@.len() as int);
        assert(s@.skip(s@.len() as int).len() == 0);
    }
    Ok(())
}

fn named(raw: &str, r: Result<(), NameError>) -> (out: Result<(), PermissionParseError>)
    ensures
        refuses(
            out,
            named_fault(
                raw@,
                match r {
                    Ok(_) => None,
                    Err(e) => Some(e@),
                },
            ),
        ),
{
    match r {
        Ok(()) => Ok(()),
        Err(e) => Err(malformed(raw, e.message())),
    }
}

/// Refuses a name that has not the form of its kind.
pub fn validate_permission_name(raw: &str, kind: NameKind, name: &str) -> (r: Result<
    (),
    PermissionParseError,
>)
    ensures
        refuses(r, named_fault(raw@, name_fault(kind, name@))),
{
    named(raw, validate_reference(kind, name))
}

/// What a host pattern parses to.
pub open spec fn host_pattern(raw: Seq<char>, s: Seq<char>) -> Result<
    HostPatternView,
    PermissionFault,
> {
    if s == "*"@ {
        Ok(HostPatternView::Any)
    } else if s.contains(':') {
        Err(
            PermissionFault::Malformed(
                raw,
                "host pattern contains ':'. Ports are not expressible in a host pattern and ':' is reserved so that port syntax can be added without reinterpreting deployed grants; grant the host alone"@,
            ),
        )
    } else if "*."@.is_prefix_of(s) {
        let suffix = s.skip("*."@.len() as int);
        if suffix.len() == 0 {
            Err(
                PermissionFault::Malformed(
                    raw,
                    "`*.` needs a suffix (`*.example.com`); for any host write `*`"@,
                ),
            )
        } else {
            unless(
                glob_fault(raw, "host pattern suffix"@, suffix),
                HostPatternView::Suffix(suffix),
            )
        }
    } else {
        unless(glob_fault(raw, "host pattern"@, s), HostPatternView::Exact(s))
    }
}

/// Parses `*`, `*.<suffix>` or an exact host.
pub fn parse_host_pattern(raw: &str, s: &str) -> (r: Result<HostPattern, PermissionParseError>)
    ensures
        match r {
            Ok(p) => host_pattern(raw@, s@) == Ok::<HostPatternView, PermissionFault>(p@),
            Err(e) => host_pattern(raw@, s@) == Err::<HostPatternView, PermissionFault>(e@),
        },
{
    if same(s, "*") {
        return Ok(HostPattern::Any);
    }
    if has_char(s, ':') {
        return Err(
            malformed(
                raw,
                "host pattern contains ':'. Ports are not expressible in a host pattern and ':' is reserved so that port syntax can be added without reinterpreting deployed grants; grant the host alone".to_owned(),
            ),
        );
    }
    if let Some(suffix) = strip_prefix(s, "*.") {
        if suffix.unicode_len() == 0 {
            return Err(
                malformed(
                    raw,
                    "`*.` needs a suffix (`*.example.com`); for any host write `*`".to_owned(),
                ),
            );
        }
        reject_glob_chars(raw, "host pattern suffix", suffix)?;
        return Ok(HostPattern::Suffix(suffix.to_owned()));
    }
    reject_glob_chars(raw, "host pattern", s)?;
    Ok(HostPattern::Exact(s.to_owned()))
}

/// What a path pattern parses to.
pub open spec fn path_pattern(raw: Seq<char>, s: Seq<char>) -> Result<
    PathPatternView,
    PermissionFault,
> {
    if s == "*"@ {
        Ok(PathPatternView::Any)
    } else if "/*"@.is_suffix_of(s) {
        let prefix = s.take(s.len() - "/*"@.len());
        unless(glob_fault(raw, "path pattern prefix"@, prefix), PathPatternView::Prefix(prefix))
    } else {
        unless(glob_fault(raw, "path pattern"@, s), PathPatternView::Exact(s))
    }
}

/// Parses `*`, `<prefix>/*` or an exact path.
pub fn parse_path_pattern(raw: &str, s: &str) -> (r: Result<PathPattern, PermissionParseError>)
    ensures
        match r {
            Ok(p) => path_pattern(raw@, s@) == Ok::<PathPatternView, PermissionFault>(p@),
            Err(e) => path_pattern(raw@, s@) == Err::<PathPatternView, PermissionFault>(e@),
        },
{
    if same(s, "*") {
        return Ok(PathPattern::Any);
    }
    if let Some(prefix) = strip_suffix(s, "/*") {
        reject_glob_chars(raw, "path pattern prefix", prefix)?;
        return Ok(PathPattern::Prefix(prefix.to_owned()));
    }
    reject_glob_chars(raw, "path pattern", s)?;
    Ok(PathPattern::Exact(s.to_owned()))
}

/// What stands after the first two parts of `provide:<what>:<target>`.
pub open spec fn provided(raw: Seq<char>, rest: Seq<char>) -> Result<
    PermissionView,
    PermissionFault,
> {
    let what = before(rest, ':');
    let target = after(rest, ':');
    if what != "step_type"@ {
        Err(
            PermissionFault::Malformed(
                raw,
                "provide category supports 'step_type' only, got '"@ + what + "'"@,
            ),
        )
    } else if target.len() == 0 {
        Err(
            PermissionFault::Malformed(
                raw,
                "provide:step_type requires a step type, e.g. provide:step_type:script:lua"@,
            ),
        )
    } else if target.contains(':') {
        let step_type = before(target, ':');
        let selector = after(target, ':');
        if selector.len() == 0 {
            Err(
                PermissionFault::Malformed(
                    raw,
                    "provide:step_type:"@ + step_type
                        + ": has a trailing colon but no selector — drop the colon for a selector-less claim"@,
                ),
            )
        } else {
            unless(
                first_of(
                    provided_type_fault(raw, step_type),
                    first_of(
                        glob_fault(raw, "provided step type selector"@, selector),
                        named_fault(raw, name_fault(NameKind::StepTypeSelector, selector)),
                    ),
                ),
                PermissionView::ProvideStepType { step_type, selector: Some(selector) },
            )
        }
    } else {
        unless(
            provided_type_fault(raw, target),
            PermissionView::ProvideStepType { step_type: target, selector: None },
        )
    }
}

/// The refusal of a step type that an entry claims to provide.
pub open spec fn provided_type_fault(raw: Seq<char>, step_type: Seq<char>) -> Option<
    PermissionFault,
> {
    first_of(
        glob_fault(raw, "provided step type"@, step_type),
        named_fault(raw, step_type_reference_fault(step_type)),
    )
}

/// Parses what follows `provide:`.
pub fn parse_provide(raw: &str, rest: &str) -> (r: Result<Permission, PermissionParseError>)
    ensures
        match r {
            Ok(p) => provided(raw@, rest@) == Ok::<PermissionView, PermissionFault>(p@),
            Err(e) => provided(raw@, rest@) == Err::<PermissionView, PermissionFault>(e@),
        },
{
    let (what, target) = split_two(rest, ':');
    if !same(what, "step_type") {
        return Err(
            malformed(
                raw,
                cat3("provide category supports 'step_type' only, got '", what, "'"),
            ),
        );
    }
    if target.unicode_len() == 0 {
        return Err(
            malformed(
                raw,
                "provide:step_type requires a step type, e.g. provide:step_type:script:lua".to_owned(),
            ),
        );
    }
    let (step_type, selector) = split_once(target, ':');
    if let Some(sel) = selector {
        if sel.unicode_len() == 0 {
            return Err(
                malformed(
                    raw,
                    cat3(
                        "provide:step_type:",
                        step_type,
                        ": has a trailing colon but no selector — drop the colon for a selector-less claim",
                    ),
                ),
            );
        }
    }
    proof {
        if selector is None {
            lemma_first_index(target@, ':');
            assert(step_type@ =~= target@);
        }
    }
    reject_glob_chars(raw, "provided step type", step_type)?;
    named(raw, validate_step_type_reference(step_type))?;
    match selector {
        Some(sel) => {
            reject_glob_chars(raw, "provided step type selector", sel)?;
            validate_permission_name(raw, NameKind::StepTypeSelector, sel)?;
            Ok(
                Permission::ProvideStepType {
                    step_type: step_type.to_owned(),
                    selector: Some(sel.to_owned()),
                },
            )
        },
        None => Ok(
            Permission::ProvideStepType { step_type: step_type.to_owned(), selector: None },
        ),
    }
}

/// The blob operation that `s` spells.
pub open spec fn blob_op(s: Seq<char>) -> Option<BlobOp> {
    if s == "read"@ {
        Some(BlobOp::Read)
    } else if s == "write"@ {
        Some(BlobOp::Write)
    } else if s == "delete"@ {
        Some(BlobOp::Delete)
    } else if s == "list"@ {
        Some(BlobOp::List)
    } else if s == "stat"@ {
        Some(BlobOp::Stat)
    } else if s == "watch"@ {
        Some(BlobOp::Watch)
    } else {
        None
    }
}

fn parse_blob_op(s: &str) -> (r: Option<BlobOp>)
    ensures
        r == blob_op(s@),
{
    if same(s, "read") {
        Some(BlobOp::Read)
    } else if same(s, "write") {
        Some(BlobOp::Write)
    } else if same(s, "delete") {
        Some(BlobOp::Delete)
    } else if same(s, "list") {
        Some(BlobOp::List)
    } else if same(s, "stat") {
        Some(BlobOp::Stat)
    } else if same(s, "watch") {
        Some(BlobOp::Watch)
    } else {
        None
    }
}

/// What `network:<rest>` parses to.
pub open spec fn network_entry(raw: Seq<char>, rest: Seq<char>) -> Result<
    PermissionView,
    PermissionFault,
> {
    let kind = before(rest, ':');
    let pattern = after(rest, ':');
    if kind != "egress"@ {
        Err(
            PermissionFault::Malformed(
                raw,
                "network category supports 'egress' only, got '"@ + kind + "'"@,
            ),
        )
    } else if pattern.len() == 0 {
        Err(PermissionFault::Malformed(raw, "network:egress requires a host pattern"@))
    } else {
        match host_pattern(raw, pattern) {
            Ok(p) => Ok(PermissionView::NetworkEgress(p)),
            Err(e) => Err(e),
        }
    }
}

/// What `blobs:<rest>` parses to.
pub open spec fn blobs_entry(raw: Seq<char>, rest: Seq<char>) -> Result<
    PermissionView,
    PermissionFault,
> {
    let pattern = after(rest, ':');
    match blob_op(before(rest, ':')) {
        None => Err(
            PermissionFault::Malformed(
                raw,
                "blobs op must be one of read/write/delete/list/stat/watch, got '"@ + before(
                    rest,
                    ':',
                ) + "'"@,
            ),
        ),
        Some(op) => if pattern.len() == 0 {
            Err(PermissionFault::Malformed(raw, "blobs permission requires a path pattern"@))
        } else {
            match path_pattern(raw, pattern) {
                Ok(p) => Ok(PermissionView::Blobs(op, p)),
                Err(e) => Err(e),
            }
        },
    }
}

/// What `step_type:<rest>` parses to.
pub open spec fn step_type_entry(raw: Seq<char>, rest: Seq<char>) -> Result<
    PermissionView,
    PermissionFault,
> {
    if rest.len() == 0 {
        Err(PermissionFault::Malformed(raw, "step_type permission requires a step type name"@))
    } else {
        unless(
            first_of(
                glob_fault(raw, "step type name"@, rest),
                named_fault(raw, step_type_reference_fault(rest)),
            ),
            PermissionView::StepType(rest),
        )
    }
}

/// What `bind:<rest>` parses to.
pub open spec fn bind_entry(raw: Seq<char>, rest: Seq<char>) -> Result<
    PermissionView,
    PermissionFault,
> {
    let what = before(rest, ':');
    let target = after(rest, ':');
    if what != "native_impl"@ {
        Err(
            PermissionFault::Malformed(
                raw,
                "bind category supports 'native_impl' only, got '"@ + what + "'"@,
            ),
        )
    } else if target.len() == 0 {
        Err(
            PermissionFault::Malformed(
                raw,
                "bind:native_impl requires an implRef, e.g. bind:native_impl:myapp.vault.sign"@,
            ),
        )
    } else {
        unless(
            first_of(
                glob_fault(raw, "bound implRef"@, target),
                named_fault(raw, impl_ref_fault(target)),
            ),
            PermissionView::BindNativeImpl(target),
        )
    }
}

/// The pattern that an `invoke` entry names.
pub open spec fn invoke_pattern(raw: Seq<char>, kind: NameKind, name: Seq<char>) -> Result<
    NamePatternView,
    PermissionFault,
> {
    if name == "*"@ {
        Ok(NamePatternView::Any)
    } else {
        unless(
            first_of(
                glob_fault(raw, "invoke target name"@, name),
                named_fault(raw, name_fault(kind, name)),
            ),
            NamePatternView::Exact(name),
        )
    }
}

/// What `invoke:<rest>` parses to.
pub open spec fn invoke_entry(raw: Seq<char>, rest: Seq<char>) -> Result<
    PermissionView,
    PermissionFault,
> {
    let kind = before(rest, ':');
    let name = after(rest, ':');
    if name.len() == 0 {
        Err(
            PermissionFault::Malformed(
                raw,
                "invoke permission requires a target, e.g. invoke:plugin:<name|*> or invoke:role:<name|*>"@,
            ),
        )
    } else if kind == "plugin"@ {
        match invoke_pattern(raw, NameKind::Plugin, name) {
            Ok(p) => Ok(PermissionView::InvokePlugin(p)),
            Err(e) => Err(e),
        }
    } else if kind == "role"@ {
        match invoke_pattern(raw, NameKind::Role, name) {
            Ok(p) => Ok(PermissionView::InvokeRole(p)),
            Err(e) => Err(e),
        }
    } else {
        Err(
            PermissionFault::Malformed(
                raw,
                "invoke category supports 'plugin' or 'role', got '"@ + kind + "'"@,
            ),
        )
    }
}

/// What an entry outside the kernel's categories parses to.
pub open spec fn app_entry(raw: Seq<char>, category: Seq<char>, rest: Seq<char>) -> Result<
    PermissionView,
    PermissionFault,
> {
    if category.len() == 0 {
        Err(PermissionFault::Empty)
    } else if !category.contains('.') {
        Err(PermissionFault::ReservedCategory(raw, category))
    } else if rest.len() == 0 {
        Err(
            PermissionFault::Malformed(
                raw,
                "'"@ + category + "' has no value — a permission is '<category>:<value>'"@,
            ),
        )
    } else {
        Ok(PermissionView::AppDefined { kind: category, value: JsonView::String(rest) })
    }
}

/// What a permission entry parses to. The white space at its two ends does not count; what stands
/// before the first colon is its category.
pub open spec fn parsed(entry: Seq<char>) -> Result<PermissionView, PermissionFault> {
    let raw = trimmed(entry);
    let category = before(raw, ':');
    let rest = after(raw, ':');
    if raw.len() == 0 {
        Err(PermissionFault::Empty)
    } else if category == "network"@ {
        network_entry(raw, rest)
    } else if category == "blobs"@ {
        blobs_entry(raw, rest)
    } else if category == "step_type"@ {
        step_type_entry(raw, rest)
    } else if category == "provide"@ {
        provided(raw, rest)
    } else if category == "bind"@ {
        bind_entry(raw, rest)
    } else if category == "invoke"@ {
        invoke_entry(raw, rest)
    } else {
        app_entry(raw, category, rest)
    }
}

/// A parser's result is the one that is given.
pub open spec fn yields(
    r: Result<Permission, PermissionParseError>,
    expected: Result<PermissionView, PermissionFault>,
) -> bool {
    match r {
        Ok(p) => expected == Ok::<PermissionView, PermissionFault>(p@),
        Err(e) => expected == Err::<PermissionView, PermissionFault>(e@),
    }
}

fn parse_network(raw: &str, rest: &str) -> (r: Result<Permission, PermissionParseError>)
    ensures
        yields(r, network_entry(raw@, rest@)),
{
    let (kind, pattern) = split_two(rest, ':');
    if !same(kind, "egress") {
        return Err(
            malformed(raw, cat3("network category supports 'egress' only, got '", kind, "'")),
        );
    }
    if pattern.unicode_len() == 0 {
        return Err(malformed(raw, "network:egress requires a host pattern".to_owned()));
    }
    let p = parse_host_pattern(raw, pattern)?;
    Ok(Permission::NetworkEgress(p))
}

fn parse_blobs(raw: &str, rest: &str) -> (r: Result<Permission, PermissionParseError>)
    ensures
        yields(r, blobs_entry(raw@, rest@)),
{
    let (op_text, pattern) = split_two(rest, ':');
    match parse_blob_op(op_text) {
        None => Err(
            malformed(
                raw,
                cat3(
                    "blobs op must be one of read/write/delete/list/stat/watch, got '",
                    op_text,
                    "'",
                ),
            ),
        ),
        Some(op) => {
            if pattern.unicode_len() == 0 {
                return Err(
                    malformed(raw, "blobs permission requires a path pattern".to_owned()),
                );
            }
            let p = parse_path_pattern(raw, pattern)?;
            Ok(Permission::Blobs(op, p))
        },
    }
}

fn parse_step_type(raw: &str, rest: &str) -> (r: Result<Permission, PermissionParseError>)
    ensures
        yields(r, step_type_entry(raw@, rest@)),
{
    if rest.unicode_len() == 0 {
        return Err(malformed(raw, "step_type permission requires a step type name".to_owned()));
    }
    reject_glob_chars(raw, "step type name", rest)?;
    named(raw, validate_step_type_reference(rest))?;
    Ok(Permission::StepType(rest.to_owned()))
}

fn parse_bind(raw: &str, rest: &str) -> (r: Result<Permission, PermissionParseError>)
    ensures
        yields(r, bind_entry(raw@, rest@)),
{
    let (what, target) = split_two(rest, ':');
    if !same(what, "native_impl") {
        return Err(
            malformed(raw, cat3("bind category supports 'native_impl' only, got '", what, "'")),
        );
    }
    if target.unicode_len() == 0 {
        return Err(
            malformed(
                raw,
                "bind:native_impl requires an implRef, e.g. bind:native_impl:myapp.vault.sign".to_owned(),
            ),
        );
    }
    reject_glob_chars(raw, "bound implRef", target)?;
    named(raw, validate_impl_ref(target))?;
    Ok(Permission::BindNativeImpl(target.to_owned()))
}

fn parse_invoke_pattern(raw: &str, kind: NameKind, name: &str) -> (r: Result<
    NamePattern,
    PermissionParseError,
>)
    ensures
        match r {
            Ok(p) => invoke_pattern(raw@, kind, name@) == Ok::<NamePatternView, PermissionFault>(
                p@,
            ),
            Err(e) => invoke_pattern(raw@, kind, name@) == Err::<NamePatternView, PermissionFault>(
                e@,
            ),
        },
{
    if same(name, "*") {
        return Ok(NamePattern::Any);
    }
    reject_glob_chars(raw, "invoke target name", name)?;
    validate_permission_name(raw, kind, name)?;
    Ok(NamePattern::Exact(name.to_owned()))
}

fn parse_invoke(raw: &str, rest: &str) -> (r: Result<Permission, PermissionParseError>)
    ensures
        yields(r, invoke_entry(raw@, rest@)),
{
    let (kind, name) = split_two(rest, ':');
    if name.unicode_len() == 0 {
        return Err(
            malformed(
                raw,
                "invoke permission requires a target, e.g. invoke:plugin:<name|*> or invoke:role:<name|*>".to_owned(),
            ),
        );
    }
    // The kind is judged before the name, so that an unknown kind is reported as such.
    if same(kind, "plugin") {
        let p = parse_invoke_pattern(raw, NameKind::Plugin, name)?;
        Ok(Permission::InvokePlugin(p))
    } else if same(kind, "role") {
        let p = parse_invoke_pattern(raw, NameKind::Role, name)?;
        Ok(Permission::InvokeRole(p))
    } else {
        Err(malformed(raw, cat3("invoke category supports 'plugin' or 'role', got '", kind, "'")))
    }
}

fn parse_app(raw: &str, category: &str, rest: &str) -> (r: Result<Permission, PermissionParseError>)
    ensures
        yields(r, app_entry(raw@, category@, rest@)),
{
    if category.unicode_len() == 0 {
        return Err(PermissionParseError::Empty);
    }
    if !has_char(category, '.') {
        return Err(
            PermissionParseError::ReservedCategory(raw.to_owned(), category.to_owned()),
        );
    }
    if rest.unicode_len() == 0 {
        return Err(
            malformed(
                raw,
                cat3("'", category, "' has no value — a permission is '<category>:<value>'"),
            ),
        );
    }
    Ok(Permission::AppDefined { kind: category.to_owned(), value: Json::String(rest.to_owned()) })
}

/// Parses a permission entry.
pub fn parse_permission(raw: &str) -> (r: Result<Permission, PermissionParseError>)
    ensures
        yields(r, parsed(raw@)),
{
    let raw = trim(raw);
    if raw.unicode_len() == 0 {
        return Err(PermissionParseError::Empty);
    }
    let (category, rest) = split_two(raw, ':');
    if same(category, "network") {
        parse_network(raw, rest)
    } else if same(category, "blobs") {
        parse_blobs(raw, rest)
    } else if same(category, "step_type") {
        parse_step_type(raw, rest)
    } else if same(category, "provide") {
        parse_provide(raw, rest)
    } else if same(category, "bind") {
        parse_bind(raw, rest)
    } else if same(category, "invoke") {
        parse_invoke(raw, rest)
    } else {
        parse_app(raw, category, rest)
    }
}

/// The permissions of a list stand for these values.
pub open spec fn permission_views(v: Seq<Permission>) -> Seq<PermissionView> {
    v.map_values(|p: Permission| p@)
}

/// Parses every entry of a list: all of them, or the error of the first that does not parse.
pub fn parse_permission_list(raw: &[String]) -> (r: Result<
    Vec<Permission>,
    PermissionParseError,
>)
    ensures
        match r {
            Ok(v) => v@.len() == raw@.len() && forall|i: int|
                0 <= i < raw@.len() ==> parsed(#[trigger] raw@[i]@) == Ok::<
                    PermissionView,
                    PermissionFault,
                >(v@[i]@),
            Err(e) => exists|i: int|
                {
                    &&& 0 <= i < raw@.len()
                    &&& parsed(#[trigger] raw@[i]@) == Err::<PermissionView, PermissionFault>(e@)
                    &&& forall|j: int| 0 <= j < i ==> parsed(#[trigger] raw@[j]@) is Ok
                },
        },
{
    let mut v: Vec<Permission> = Vec::new();
    let mut i: usize = 0;
    while i < raw.len()
        invariant
            i <= raw@.len(),
            v@.len() == i,
            forall|j: int|
                0 <= j < i ==> parsed(#[trigger] raw@[j]@) == Ok::<PermissionView, PermissionFault>(
                    v@[j]@,
                ),
        decreases raw@.len() - i,
    {
        match parse_permission(raw[i].as_str()) {
            Ok(p) => {
                v.push(p);
            },
            Err(e) => {
                assert(parsed(raw@[i as int]@) is Err);
                return Err(e);
            },
        }
        i += 1;
    }
    Ok(v)
}

/// A permission category that an embedder defines, with a check on its values where it has one.
pub struct AppPermissionCategory<F> {
    name: String,
    validator: Option<F>,
}

impl<F: Fn(&str) -> Result<(), String>> AppPermissionCategory<F> {
    /// The category's name.
    pub closed spec fn name_text(&self) -> Seq<char> {
        self.name@
    }

    /// The check on the category's values.
    pub closed spec fn check(&self) -> Option<F> {
        self.validator
    }

    /// The check, where there is one, can be run on every value.
    pub open spec fn is_total(&self) -> bool {
        self.check() is Some ==> forall|s: &str| #[trigger] self.check()->0.requires((s,))
    }

    /// The category can answer `value` so: with no refusal, or with these words.
    pub open spec fn answers(&self, value: Seq<char>, refusal: Option<Seq<char>>) -> bool {
        match self.check() {
            None => refusal is None,
            Some(f) => exists|s: &str, r: Result<(), String>|
                s@ == value && refusal_of(r) == refusal && #[trigger] f.ensures((s,), r),
        }
    }

    /// A category that takes any value.
    pub fn new(name: String) -> (r: Self)
        ensures
            r.name_text() == name@,
            r.check() is None,
    {
        AppPermissionCategory { name, validator: None }
    }

    /// The category, with a check on the values that it takes.
    pub fn with_validator(self, validator: F) -> (r: Self)
        ensures
            r.name_text() == self.name_text(),
            r.check() == Some(validator),
    {
        AppPermissionCategory { name: self.name, validator: Some(validator) }
    }

    /// The category's name.
    pub fn name(&self) -> (r: &str)
        ensures
            r@ == self.name_text(),
    {
        self.name.as_str()
    }

    /// Whether the category has a check on its values; without one it takes any value.
    pub fn is_value_checked(&self) -> (r: bool)
        ensures
            r == (self.check() is Some),
    {
        self.validator.is_some()
    }

    /// Runs the check, where there is one, on a value.
    pub fn check_value(&self, value: &str) -> (r: Result<(), String>)
        requires
            self.is_total(),
        ensures
            self.check() is None ==> r == Ok::<(), String>(()),
            self.check() is Some ==> self.check()->0.ensures((value,), r),
            self.answers(value@, refusal_of(r)),
    {
        match &self.validator {
            Some(f) => f(value),
            None => Ok(()),
        }
    }
}

/// The words of a refusal, where `r` is one.
pub open spec fn refusal_of(r: Result<(), String>) -> Option<Seq<char>> {
    match r {
        Ok(_) => None,
        Err(why) => Some(why@),
    }
}

/// The names of the categories.
pub open spec fn category_names<F: Fn(&str) -> Result<(), String>>(
    categories: Seq<AppPermissionCategory<F>>,
) -> Seq<Seq<char>> {
    categories.map_values(|c: AppPermissionCategory<F>| c.name_text())
}

/// The first category by this name.
pub open spec fn category_at<F: Fn(&str) -> Result<(), String>>(
    categories: Seq<AppPermissionCategory<F>>,
    kind: Seq<char>,
    i: int,
) -> bool {
    &&& 0 <= i < categories.len()
    &&& categories[i].name_text() == kind
    &&& forall|j: int| 0 <= j < i ==> (#[trigger] categories[j]).name_text() != kind
}

/// The words that tell which categories there are: their names in order, or how to declare one.
pub open spec fn known_categories_text(names: Seq<Seq<char>>, r: Seq<char>) -> bool {
    if names.len() == 0 {
        r
            == "This kernel declares no embedder permission categories at all. If the category is yours, declare it at boot: `KernelConfig::default().defining_app_permission_category(\"acme.events\")`"@
    } else {
        exists|ordered: Seq<Seq<char>>|
            {
                &&& ordered.to_multiset() == names.to_multiset()
                &&& lex_sorted(ordered)
                &&& r == "Declared categories: "@ + #[trigger] joined(ordered, ", "@)
                    + ". Check for a typo, or declare this one at boot with `KernelConfig::defining_app_permission_category`"@
            }
    }
}

/// The words that tell which categories there are.
pub fn describe_known_categories<F: Fn(&str) -> Result<(), String>>(
    categories: &[AppPermissionCategory<F>],
) -> (r: String)
    ensures
        known_categories_text(category_names(categories@), r@),
{
    if categories.len() == 0 {
        return "This kernel declares no embedder permission categories at all. If the category is yours, declare it at boot: `KernelConfig::default().defining_app_permission_category(\"acme.events\")`".to_owned();
    }
    let mut names: Vec<String> = Vec::new();
    let mut i: usize = 0;
    while i < categories.len()
        invariant
            i <= categories@.len(),
            texts(names@) == category_names(categories@).take(i as int),
        decreases categories@.len() - i,
    {
        let ghost listed = texts(names@);
        let category = &categories[i];
        names.push(category.name().to_owned());
        i += 1;
        proof {
            let all = category_names(categories@);
            assert(texts(names@) =~= listed.push(category.name_text()));
            assert(all.take(i as int) =~= all.take(i - 1).push(all[i - 1]));
        }
    }
    proof {
        assert(category_names(categories@).take(i as int) =~= category_names(categories@));
    }
    let ordered = sort(names);
    let listed = join(&ordered, ", ");
    cat3(
        "Declared categories: ",
        listed.as_str(),
        ". Check for a typo, or declare this one at boot with `KernelConfig::defining_app_permission_category`",
    )
}

/// An entry is accepted as `p`: it parses to `p`, and an embedder's category is a declared one whose
/// check can accept the value.
pub open spec fn entry_accepted<F: Fn(&str) -> Result<(), String>>(
    entry: Seq<char>,
    categories: Seq<AppPermissionCategory<F>>,
    p: PermissionView,
) -> bool {
    &&& parsed(entry) == Ok::<PermissionView, PermissionFault>(p)
    &&& match p {
        PermissionView::AppDefined { kind, value } => exists|i: int|
            #[trigger] category_at(categories, kind, i) && categories[i].answers(
                value->String_0,
                None,
            ),
        _ => true,
    }
}

/// An entry can be accepted.
pub open spec fn entry_acceptable<F: Fn(&str) -> Result<(), String>>(
    entry: Seq<char>,
    categories: Seq<AppPermissionCategory<F>>,
) -> bool {
    exists|p: PermissionView| entry_accepted(entry, categories, p)
}

/// An entry is refused with `e`: it does not parse, its category is not declared, or the category's
/// check can refuse the value with these words.
pub open spec fn entry_refused<F: Fn(&str) -> Result<(), String>>(
    entry: Seq<char>,
    categories: Seq<AppPermissionCategory<F>>,
    e: PermissionFault,
) -> bool {
    match parsed(entry) {
        Err(fault) => e == fault,
        Ok(PermissionView::AppDefined { kind, value }) => {
            ||| {
                &&& !category_names(categories).contains(kind)
                &&& e is UnknownAppCategory
                &&& e->UnknownAppCategory_raw == trimmed(entry)
                &&& e->UnknownAppCategory_category == kind
                &&& known_categories_text(category_names(categories), e->known)
            }
            ||| {
                &&& e is AppValueRejected
                &&& e->AppValueRejected_raw == trimmed(entry)
                &&& e->AppValueRejected_category == kind
                &&& exists|i: int| #[trigger]
                    category_at(categories, kind, i) && categories[i].answers(
                        value->String_0,
                        Some(e->reason),
                    )
            }
        },
        Ok(_) => false,
    }
}

/// Parses one entry and holds an embedder's category in it to the declared ones.
fn parse_manifest_permission<F: Fn(&str) -> Result<(), String>>(
    entry: &str,
    categories: &[AppPermissionCategory<F>],
) -> (r: Result<Permission, PermissionParseError>)
    requires
        forall|i: int| 0 <= i < categories@.len() ==> (#[trigger] categories@[i]).is_total(),
    ensures
        match r {
            Ok(p) => entry_accepted(entry@, categories@, p@),
            Err(e) => entry_refused(entry@, categories@, e@),
        },
{
    let p = parse_permission(entry)?;
    assert(p@ is AppDefined ==> p@->value is String);
    assert(p is AppDefined ==> p->value is String);
    if let Permission::AppDefined { kind, value: Json::String(value) } = &p {
        let mut i: usize = 0;
        while i < categories.len() && !same(categories[i].name(), kind.as_str())
            invariant
                i <= categories@.len(),
                forall|j: int| 0 <= j < i ==> (#[trigger] categories@[j]).name_text() != kind@,
            decreases categories@.len() - i,
        {
            i += 1;
        }
        if i == categories.len() {
            let known = describe_known_categories(categories);
            proof {
                let names = category_names(categories@);
                if names.contains(kind@) {
                    let k = names.index_of(kind@);
                    assert(categories@[k].name_text() == kind@);
                }
            }
            return Err(
                PermissionParseError::UnknownAppCategory {
                    raw: trim(entry).to_owned(),
                    category: kind.clone(),
                    known,
                },
            );
        }
        assert(category_at(categories@, kind@, i as int));
        let category = &categories[i];
        let answer = category.check_value(value.as_str());
        assert(category.answers(value@, refusal_of(answer)));
        assert(*category == categories@[i as int]);
        if let Err(reason) = answer {
            return Err(
                PermissionParseError::AppValueRejected {
                    raw: trim(entry).to_owned(),
                    category: kind.clone(),
                    reason,
                },
            );
        }
        assert(categories@[i as int].answers(value@, None));
    }
    Ok(p)
}

/// `r` is what can come of reading the entries of a manifest: a permission for each of them, or the
/// refusal of one before which all can be accepted.
pub open spec fn permissions_outcome<F: Fn(&str) -> Result<(), String>>(
    raw: Seq<Seq<char>>,
    categories: Seq<AppPermissionCategory<F>>,
    r: Result<Seq<PermissionView>, PermissionFault>,
) -> bool {
    match r {
        Ok(v) => v.len() == raw.len() && forall|i: int|
            0 <= i < raw.len() ==> entry_accepted(#[trigger] raw[i], categories, v[i]),
        Err(e) => exists|i: int|
            {
                &&& 0 <= i < raw.len()
                &&& entry_refused(#[trigger] raw[i], categories, e)
                &&& forall|j: int| 0 <= j < i ==> entry_acceptable(#[trigger] raw[j], categories)
            },
    }
}

/// The result of reading the entries of a manifest as a plain value.
pub open spec fn permissions_result(r: Result<Vec<Permission>, PermissionParseError>) -> Result<
    Seq<PermissionView>,
    PermissionFault,
> {
    match r {
        Ok(v) => Ok(permission_views(v@)),
        Err(e) => Err(e@),
    }
}

/// Parses the entries of a manifest and holds every embedder's category in them to the declared
/// ones: all of them, or the error of the first entry that is refused.
pub fn parse_manifest_permissions<F: Fn(&str) -> Result<(), String>>(
    raw: &[String],
    categories: &[AppPermissionCategory<F>],
) -> (r: Result<Vec<Permission>, PermissionParseError>)
    requires
        forall|i: int| 0 <= i < categories@.len() ==> (#[trigger] categories@[i]).is_total(),
    ensures
        permissions_outcome(texts(raw@), categories@, permissions_result(r)),
{
    let ghost entries = texts(raw@);
    let mut v: Vec<Permission> = Vec::new();
    let mut i: usize = 0;
    while i < raw.len()
        invariant
            i <= raw@.len(),
            v@.len() == i,
            entries == texts(raw@),
            forall|k: int| 0 <= k < categories@.len() ==> (#[trigger] categories@[k]).is_total(),
            forall|j: int|
                0 <= j < i ==> entry_accepted(#[trigger] entries[j], categories@, v@[j]@),
        decreases raw@.len() - i,
    {
        assert(entries[i as int] == raw@[i as int]@);
        match parse_manifest_permission(raw[i].as_str(), categories) {
            Ok(p) => {
                v.push(p);
            },
            Err(e) => {
                assert(entry_refused(entries[i as int], categories@, e@));
                assert forall|j: int| 0 <= j < i implies entry_acceptable(
                    #[trigger] entries[j],
                    categories@,
                ) by {
                    assert(entry_accepted(entries[j], categories@, v@[j]@));
                }
                return Err(e);
            },
        }
        i += 1;
    }
    Ok(v)
}

/// What is wrong with the first segment of a category's name that is no name.
pub open spec fn segment_fault(s: Seq<char>) -> Option<NameErrorView>
    decreases s.len(),
{
    let fault = name_fault(NameKind::AppCategorySegment, before(s, '.'));
    if fault is Some || !s.contains('.') {
        fault
    } else {
        proof {
            lemma_first_index(s, '.');
        }
        segment_fault(after(s, '.'))
    }
}

/// What is wrong with the name of a category that an embedder declares: it has a dot and no colon,
/// and its segments are names.
pub open spec fn category_name_fault(name: Seq<char>) -> Option<Seq<char>> {
    if name.len() == 0 {
        Some("category name is empty"@)
    } else if !name.contains('.') {
        Some(
            "'"@ + name
                + "' has no dot. Dot-free category names are reserved for the kernel, so no manifest could ever name this one — use a namespaced form such as 'acme."@
                + name + "'"@,
        )
    } else if name.contains(':') {
        Some(
            "'"@ + name
                + "' contains ':', which separates the category from its value. Declare the category alone: '"@
                + before(name, ':') + "'"@,
        )
    } else {
        match segment_fault(name) {
            Some(e) => Some(e.text()),
            None => None,
        }
    }
}

fn validate_segments(s: &str) -> (r: Result<(), NameError>)
    ensures
        reports(r, segment_fault(s@)),
    decreases s@.len(),
{
    proof {
        lemma_first_index(s@, '.');
    }
    let (head, tail) = split_once(s, '.');
    validate_name(NameKind::AppCategorySegment, head)?;
    match tail {
        Some(rest) => validate_segments(rest),
        None => Ok(()),
    }
}

/// Checks the name of a category that an embedder declares.
pub fn validate_app_category_name(name: &str) -> (r: Result<(), String>)
    ensures
        match category_name_fault(name@) {
            None => r is Ok,
            Some(why) => r is Err && r->Err_0@ == why,
        },
{
    if name.unicode_len() == 0 {
        return Err("category name is empty".to_owned());
    }
    if !has_char(name, '.') {
        return Err(
            cat5(
                "'",
                name,
                "' has no dot. Dot-free category names are reserved for the kernel, so no manifest could ever name this one — use a namespaced form such as 'acme.",
                name,
                "'",
            ),
        );
    }
    if has_char(name, ':') {
        let (alone, _) = split_once(name, ':');
        return Err(
            cat5(
                "'",
                name,
                "' contains ':', which separates the category from its value. Declare the category alone: '",
                alone,
                "'",
            ),
        );
    }
    match validate_segments(name) {
        Ok(()) => Ok(()),
        Err(e) => Err(e.message()),
    }
}

/// The answer to a permission check; a denial carries what was asked for.
#[derive(Debug)]
#[non_exhaustive]
pub enum PermissionCheck {
    Granted,
    Denied { requested: String },
}

impl PermissionCheck {
    /// Whether the check was granted.
    pub fn is_granted(&self) -> (r: bool)
        ensures
            r == (self is Granted),
    {
        match self {
            PermissionCheck::Granted => true,
            PermissionCheck::Denied { .. } => false,
        }
    }
}

/// A check grants exactly where `granted` holds, and else denies with these words.
pub open spec fn decides(r: PermissionCheck, granted: bool, requested: Seq<char>) -> bool {
    match r {
        PermissionCheck::Granted => granted,
        PermissionCheck::Denied { requested: s } => !granted && s@ == requested,
    }
}

/// A grant lets network traffic out to `host`.
pub open spec fn grants_egress(p: PermissionView, host: Seq<char>) -> bool {
    p is NetworkEgress && p->NetworkEgress_0.covers(host)
}

/// A grant allows the operation on the blob at `key`.
pub open spec fn grants_blob(p: PermissionView, op: BlobOp, key: Seq<char>) -> bool {
    p is Blobs && p->Blobs_0 == op && p->Blobs_1.covers(key)
}

/// A grant allows dispatch by `role`.
pub open spec fn grants_role(p: PermissionView, role: Seq<char>) -> bool {
    p is InvokeRole && p->InvokeRole_0.covers(role)
}

/// A grant allows the use of `step_type`.
pub open spec fn grants_step_type(p: PermissionView, step_type: Seq<char>) -> bool {
    p == PermissionView::StepType(step_type)
}

/// Some grant lets network traffic out to `host`.
pub open spec fn egress_granted(grants: Seq<Permission>, host: Seq<char>) -> bool {
    exists|i: int| 0 <= i < grants.len() && grants_egress(#[trigger] grants[i]@, host)
}

/// Some grant allows the operation on the blob at `key`.
pub open spec fn blob_granted(grants: Seq<Permission>, op: BlobOp, key: Seq<char>) -> bool {
    exists|i: int| 0 <= i < grants.len() && grants_blob(#[trigger] grants[i]@, op, key)
}

/// Some grant allows dispatch by `role`.
pub open spec fn role_granted(grants: Seq<Permission>, role: Seq<char>) -> bool {
    exists|i: int| 0 <= i < grants.len() && grants_role(#[trigger] grants[i]@, role)
}

/// Some grant allows the use of `step_type`.
pub open spec fn step_type_granted(grants: Seq<Permission>, step_type: Seq<char>) -> bool {
    exists|i: int| 0 <= i < grants.len() && grants_step_type(#[trigger] grants[i]@, step_type)
}

/// Whether the grants let network traffic out to `host`.
pub fn check_network_egress(grants: &[Permission], host: &str) -> (r: PermissionCheck)
    ensures
        decides(r, egress_granted(grants@, host@), "network:egress:"@ + host@),
{
    let mut i: usize = 0;
    while i < grants.len()
        invariant
            i <= grants@.len(),
            forall|j: int| 0 <= j < i ==> !grants_egress(#[trigger] grants@[j]@, host@),
        decreases grants@.len() - i,
    {
        if let Permission::NetworkEgress(p) = &grants[i] {
            if p.matches(host) {
                assert(grants_egress(grants@[i as int]@, host@));
                return PermissionCheck::Granted;
            }
        }
        i += 1;
    }
    PermissionCheck::Denied { requested: cat2("network:egress:", host) }
}

/// Whether the grants allow the operation on the blob at `key`.
pub fn check_blobs(grants: &[Permission], op: BlobOp, key: &str) -> (r: PermissionCheck)
    ensures
        decides(r, blob_granted(grants@, op, key@), "blobs:"@ + op.op_text() + ":"@ + key@),
{
    let mut i: usize = 0;
    while i < grants.len()
        invariant
            i <= grants@.len(),
            forall|j: int| 0 <= j < i ==> !grants_blob(#[trigger] grants@[j]@, op, key@),
        decreases grants@.len() - i,
    {
        if let Permission::Blobs(grant_op, p) = &grants[i] {
            if *grant_op == op && p.matches(key) {
                assert(grants_blob(grants@[i as int]@, op, key@));
                return PermissionCheck::Granted;
            }
        }
        i += 1;
    }
    PermissionCheck::Denied { requested: cat4("blobs:", op.as_str(), ":", key) }
}

/// Whether the grants allow dispatch by `role`.
pub fn check_invoke_role(grants: &[Permission], role: &str) -> (r: PermissionCheck)
    ensures
        decides(r, role_granted(grants@, role@), "invoke:role:"@ + role@),
{
    let mut i: usize = 0;
    while i < grants.len()
        invariant
            i <= grants@.len(),
            forall|j: int| 0 <= j < i ==> !grants_role(#[trigger] grants@[j]@, role@),
        decreases grants@.len() - i,
    {
        if let Permission::InvokeRole(p) = &grants[i] {
            if p.matches(role) {
                assert(grants_role(grants@[i as int]@, role@));
                return PermissionCheck::Granted;
            }
        }
        i += 1;
    }
    PermissionCheck::Denied { requested: cat2("invoke:role:", role) }
}

/// Whether the grants allow the use of `step_type`.
pub fn check_step_type(grants: &[Permission], step_type: &str) -> (r: PermissionCheck)
    ensures
        decides(r, step_type_granted(grants@, step_type@), "step_type:"@ + step_type@),
{
    let mut i: usize = 0;
    while i < grants.len()
        invariant
            i <= grants@.len(),
            forall|j: int| 0 <= j < i ==> !grants_step_type(#[trigger] grants@[j]@, step_type@),
        decreases grants@.len() - i,
    {
        if let Permission::StepType(name) = &grants[i] {
            if same(name.as_str(), step_type) {
                assert(grants_step_type(grants@[i as int]@, step_type@));
                return PermissionCheck::Granted;
            }
        }
        i += 1;
    }
    PermissionCheck::Denied { requested: cat2("step_type:", step_type) }
}

} // verus!
