//! What holds of permissions as a whole.

use vstd::prelude::*;

use crate::identity::{impl_ref_fault, name_fault, step_type_reference_fault, NameKind};
use crate::permissions::{
    blob_granted, egress_granted, first_glob_char, grants_blob, grants_egress, grants_role,
    grants_step_type, is_glob_char, parsed, role_granted, step_type_granted, BlobOp,
    HostPatternView, NamePatternView, PathPatternView, Permission, PermissionView,
};
use crate::text::{before, lower, trimmed};

verus! {

/// Without a grant everything is denied.
pub proof fn law_nothing_is_granted_by_default(op: BlobOp, name: Seq<char>)
    ensures
        !egress_granted(Seq::empty(), name),
        !blob_granted(Seq::empty(), op, name),
        !role_granted(Seq::empty(), name),
        !step_type_granted(Seq::empty(), name),
{
}

/// A grant allows what it allows whatever other grants there are: more grants take nothing away.
pub proof fn law_grants_add_up(
    grants: Seq<Permission>,
    more: Seq<Permission>,
    op: BlobOp,
    name: Seq<char>,
)
    ensures
        egress_granted(grants + more, name) <==> egress_granted(grants, name) || egress_granted(
            more,
            name,
        ),
        blob_granted(grants + more, op, name) <==> blob_granted(grants, op, name) || blob_granted(
            more,
            op,
            name,
        ),
        role_granted(grants + more, name) <==> role_granted(grants, name) || role_granted(
            more,
            name,
        ),
        step_type_granted(grants + more, name) <==> step_type_granted(grants, name)
            || step_type_granted(more, name),
{
    let all = grants + more;
    assert forall|i: int| 0 <= i < all.len() implies #[trigger] all[i] == if i < grants.len() {
        grants[i]
    } else {
        more[i - grants.len()]
    } by {}
    assert forall|i: int| 0 <= i < grants.len() implies #[trigger] grants[i] == all[i] by {}
    assert forall|i: int| 0 <= i < more.len() implies #[trigger] more[i] == all[grants.len()
        + i] by {}
    if egress_granted(all, name) {
        let i = choose|i: int| 0 <= i < all.len() && grants_egress(#[trigger] all[i]@, name);
        if i < grants.len() {
            assert(grants_egress(grants[i]@, name));
        } else {
            assert(grants_egress(more[i - grants.len()]@, name));
        }
    }
    if blob_granted(all, op, name) {
        let i = choose|i: int| 0 <= i < all.len() && grants_blob(#[trigger] all[i]@, op, name);
        if i < grants.len() {
            assert(grants_blob(grants[i]@, op, name));
        } else {
            assert(grants_blob(more[i - grants.len()]@, op, name));
        }
    }
    if role_granted(all, name) {
        let i = choose|i: int| 0 <= i < all.len() && grants_role(#[trigger] all[i]@, name);
        if i < grants.len() {
            assert(grants_role(grants[i]@, name));
        } else {
            assert(grants_role(more[i - grants.len()]@, name));
        }
    }
    if step_type_granted(all, name) {
        let i = choose|i: int| 0 <= i < all.len() && grants_step_type(#[trigger] all[i]@, name);
        if i < grants.len() {
            assert(grants_step_type(grants[i]@, name));
        } else {
            assert(grants_step_type(more[i - grants.len()]@, name));
        }
    }
}

/// No character of a text is reserved for wildcards.
pub open spec fn is_literal(s: Seq<char>) -> bool {
    forall|i: int| 0 <= i < s.len() ==> !is_glob_char(#[trigger] s[i])
}

proof fn lemma_literal(s: Seq<char>)
    ensures
        first_glob_char(s) is None ==> is_literal(s),
    decreases s.len(),
{
    if s.len() > 0 {
        let t = s.drop_first();
        lemma_literal(t);
        assert forall|i: int| 0 <= i < s.len() && first_glob_char(s) is None implies !is_glob_char(
            #[trigger] s[i],
        ) by {
            if i > 0 {
                assert(t[i - 1] == s[i]);
            }
        }
    }
}

/// The texts that a permission is matched by, beside the blessed wildcards, which are variants of
/// their own.
pub open spec fn matched_literally(p: PermissionView) -> bool {
    match p {
        PermissionView::NetworkEgress(HostPatternView::Suffix(s)) => is_literal(s),
        PermissionView::NetworkEgress(HostPatternView::Exact(s)) => is_literal(s),
        PermissionView::Blobs(_, PathPatternView::Prefix(s)) => is_literal(s),
        PermissionView::Blobs(_, PathPatternView::Exact(s)) => is_literal(s),
        PermissionView::StepType(s) => is_literal(s),
        PermissionView::InvokePlugin(NamePatternView::Exact(s)) => is_literal(s),
        PermissionView::InvokeRole(NamePatternView::Exact(s)) => is_literal(s),
        PermissionView::ProvideStepType { step_type, selector } => is_literal(step_type) && (
        selector is Some ==> is_literal(selector->0)),
        PermissionView::BindNativeImpl(s) => is_literal(s),
        _ => true,
    }
}

/// `*`, `?` and `[` are reserved: no permission that parses has one of them in a text that is matched
/// as it stands.
pub proof fn law_wildcards_are_reserved(entry: Seq<char>)
    ensures
        parsed(entry) is Ok ==> matched_literally(parsed(entry)->Ok_0),
{
    if parsed(entry) is Ok {
        match parsed(entry)->Ok_0 {
            PermissionView::NetworkEgress(HostPatternView::Suffix(s)) => lemma_literal(s),
            PermissionView::NetworkEgress(HostPatternView::Exact(s)) => lemma_literal(s),
            PermissionView::Blobs(_, PathPatternView::Prefix(s)) => lemma_literal(s),
            PermissionView::Blobs(_, PathPatternView::Exact(s)) => lemma_literal(s),
            PermissionView::StepType(s) => lemma_literal(s),
            PermissionView::InvokePlugin(NamePatternView::Exact(s)) => lemma_literal(s),
            PermissionView::InvokeRole(NamePatternView::Exact(s)) => lemma_literal(s),
            PermissionView::ProvideStepType { step_type, selector } => {
                lemma_literal(step_type);
                if selector is Some {
                    lemma_literal(selector->0);
                }
            },
            PermissionView::BindNativeImpl(s) => lemma_literal(s),
            _ => {},
        }
    }
}

/// A category without a dot is one of the kernel's own, or the entry does not parse; and every
/// category of the kernel parses to permissions of its own.
pub proof fn law_dotless_categories_are_the_kernels(entry: Seq<char>)
    ensures
        parsed(entry) is Ok ==> {
            let category = before(trimmed(entry), ':');
            match parsed(entry)->Ok_0 {
                PermissionView::NetworkEgress(_) => category == "network"@,
                PermissionView::Blobs(_, _) => category == "blobs"@,
                PermissionView::StepType(_) => category == "step_type"@,
                PermissionView::InvokePlugin(_) => category == "invoke"@,
                PermissionView::InvokeRole(_) => category == "invoke"@,
                PermissionView::ProvideStepType { .. } => category == "provide"@,
                PermissionView::BindNativeImpl(_) => category == "bind"@,
                PermissionView::AppDefined { kind, .. } => kind == category && kind.contains('.'),
            }
        },
{
}

/// A grant names nothing that could not be registered: the names in it have the form of their kind.
pub proof fn law_grants_name_what_can_be(entry: Seq<char>)
    ensures
        parsed(entry) is Ok ==> match parsed(entry)->Ok_0 {
            PermissionView::InvokePlugin(NamePatternView::Exact(s)) => name_fault(
                NameKind::Plugin,
                s,
            ) is None,
            PermissionView::InvokeRole(NamePatternView::Exact(s)) => name_fault(
                NameKind::Role,
                s,
            ) is None,
            PermissionView::StepType(s) => step_type_reference_fault(s) is None,
            PermissionView::ProvideStepType { step_type, selector } => step_type_reference_fault(
                step_type,
            ) is None && (selector is Some ==> name_fault(
                NameKind::StepTypeSelector,
                selector->0,
            ) is None),
            PermissionView::BindNativeImpl(s) => impl_ref_fault(s) is None,
            _ => true,
        },
{
}

/// White space around an entry does not count.
pub proof fn law_white_space_around_does_not_count(entry: Seq<char>, other: Seq<char>)
    requires
        trimmed(entry) == trimmed(other),
    ensures
        parsed(entry) == parsed(other),
{
}

/// A host suffix covers itself and every host under it, and no host that merely ends like it; an
/// exact host covers itself, and the case of letters does not count in either.
pub proof fn law_hosts_match_whole_labels(suffix: Seq<char>, label: Seq<char>)
    ensures
        HostPatternView::Suffix(suffix).covers(suffix),
        HostPatternView::Suffix(suffix).covers(label + "."@ + suffix),
        HostPatternView::Exact(suffix).covers(suffix),
        forall|host: Seq<char>|
            #![trigger HostPatternView::Suffix(suffix).covers(host)]
            lower(host).len() > lower(suffix).len() && HostPatternView::Suffix(suffix).covers(host)
                ==> lower(host)[lower(host).len() - lower(suffix).len() - 1] == '.',
{
    reveal_strlit(".");
    assert("."@.len() == 1 && "."@[0] == '.');
    lemma_lower_parts(label, "."@ + suffix);
    lemma_lower_parts("."@, suffix);
    assert(label + "."@ + suffix =~= label + ("."@ + suffix));
    let tail = lower("."@ + suffix);
    assert(lower(label + "."@ + suffix) == lower(label) + tail);
    assert(tail.is_suffix_of(lower(label) + tail));
    assert(tail.len() == lower(suffix).len() + 1);
    assert(tail[0] == '.');
    assert forall|host: Seq<char>|
        #![trigger HostPatternView::Suffix(suffix).covers(host)]
        lower(host).len() > lower(suffix).len() && HostPatternView::Suffix(suffix).covers(
            host,
        ) implies lower(host)[lower(host).len() - lower(suffix).len() - 1] == '.' by {
        let h = lower(host);
        assert(tail.is_suffix_of(h));
        assert(h.skip(h.len() - tail.len()) == tail);
        assert(h.skip(h.len() - tail.len())[0] == h[h.len() - tail.len()]);
    }
}

proof fn lemma_lower_parts(a: Seq<char>, b: Seq<char>)
    ensures
        lower(a + b) == lower(a) + lower(b),
        lower(a).len() == a.len(),
{
    assert(lower(a + b) =~= lower(a) + lower(b));
}

/// A path prefix covers itself and what follows it after a slash, and nothing else.
pub proof fn law_paths_match_whole_segments(prefix: Seq<char>, rest: Seq<char>, key: Seq<char>)
    ensures
        PathPatternView::Prefix(prefix).covers(prefix),
        PathPatternView::Prefix(prefix).covers(prefix + "/"@ + rest),
        PathPatternView::Prefix(prefix).covers(key) && key != prefix ==> key.len() > prefix.len()
            && key[prefix.len() as int] == '/' && key.take(prefix.len() as int) == prefix,
{
    reveal_strlit("/");
    assert("/"@.len() == 1 && "/"@[0] == '/');
    let open = prefix + "/"@;
    assert(open.is_prefix_of(prefix + "/"@ + rest));
    if open.is_prefix_of(key) {
        assert(key.take(open.len() as int) =~= open);
        assert(key[prefix.len() as int] == open[prefix.len() as int]);
        assert(key.take(prefix.len() as int) =~= prefix) by {
            assert forall|i: int| 0 <= i < prefix.len() implies key[i] == prefix[i] by {
                assert(key[i] == open[i]);
            }
        }
    }
}

/// A grant for one operation on blobs allows no other.
pub proof fn law_operations_are_granted_one_by_one(
    grant_op: BlobOp,
    pattern: PathPatternView,
    op: BlobOp,
    key: Seq<char>,
)
    requires
        op != grant_op,
    ensures
        !grants_blob(PermissionView::Blobs(grant_op, pattern), op, key),
{
}

} // verus!
