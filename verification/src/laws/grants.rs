//! What holds of permissions: how an entry of a manifest reads, and what a grant allows.

use vstd::prelude::*;

use crate::identity::{
    impl_ref_fault, is_name_char, name_fault, step_type_reference_fault, NameKind,
};
use crate::permissions::laws::is_literal;
use crate::permissions::{
    blob_granted, blob_op, category_at, category_name_fault, decides, egress_granted,
    entry_acceptable, entry_accepted, entry_refused, first_glob_char, grants_blob, grants_egress,
    grants_role, grants_step_type, is_glob_char, parsed, permissions_outcome, role_granted,
    segment_fault, step_type_granted, AppPermissionCategory, BlobOp, HostPatternView,
    NamePatternView, PathPatternView, Permission, PermissionCheck, PermissionFault, PermissionView,
};
use crate::text::{
    after, before, lemma_first_index, lemma_first_index_is, lower, lower_char, trimmed,
};

verus! {

/// The word for an operation on blobs.
pub open spec fn op_word(op: BlobOp) -> Seq<char> {
    match op {
        BlobOp::Read => "read"@,
        BlobOp::Write => "write"@,
        BlobOp::Delete => "delete"@,
        BlobOp::List => "list"@,
        BlobOp::Stat => "stat"@,
        BlobOp::Watch => "watch"@,
    }
}

/// How a permission is written in a manifest.
pub open spec fn spelled(p: PermissionView) -> Seq<char> {
    match p {
        PermissionView::NetworkEgress(HostPatternView::Any) => "network"@ + ":"@ + ("egress"@ + ":"@
            + "*"@),
        PermissionView::NetworkEgress(HostPatternView::Suffix(s)) => "network"@ + ":"@ + ("egress"@
            + ":"@ + ("*."@ + s)),
        PermissionView::NetworkEgress(HostPatternView::Exact(s)) => "network"@ + ":"@ + ("egress"@
            + ":"@ + s),
        PermissionView::Blobs(op, PathPatternView::Any) => "blobs"@ + ":"@ + (op_word(op) + ":"@
            + "*"@),
        PermissionView::Blobs(op, PathPatternView::Prefix(s)) => "blobs"@ + ":"@ + (op_word(op)
            + ":"@ + (s + "/*"@)),
        PermissionView::Blobs(op, PathPatternView::Exact(s)) => "blobs"@ + ":"@ + (op_word(op)
            + ":"@ + s),
        PermissionView::StepType(s) => "step_type"@ + ":"@ + s,
        PermissionView::InvokePlugin(NamePatternView::Any) => "invoke"@ + ":"@ + ("plugin"@ + ":"@
            + "*"@),
        PermissionView::InvokePlugin(NamePatternView::Exact(s)) => "invoke"@ + ":"@ + ("plugin"@
            + ":"@ + s),
        PermissionView::InvokeRole(NamePatternView::Any) => "invoke"@ + ":"@ + ("role"@ + ":"@
            + "*"@),
        PermissionView::InvokeRole(NamePatternView::Exact(s)) => "invoke"@ + ":"@ + ("role"@ + ":"@
            + s),
        PermissionView::ProvideStepType { step_type, selector: None } => "provide"@ + ":"@ + (
        "step_type"@ + ":"@ + step_type),
        PermissionView::ProvideStepType { step_type, selector: Some(s) } => "provide"@ + ":"@ + (
        "step_type"@ + ":"@ + (step_type + ":"@ + s)),
        PermissionView::BindNativeImpl(s) => "bind"@ + ":"@ + ("native_impl"@ + ":"@ + s),
        PermissionView::AppDefined { kind, value } => kind + ":"@ + value->String_0,
    }
}

proof fn lemma_parts(s: Seq<char>, c: char)
    ensures
        s.contains(c) ==> s == before(s, c) + seq![c] + after(s, c),
        !before(s, c).contains(c),
        after(s, c).len() > 0 ==> s.contains(c),
{
    lemma_first_index(s, c);
    if s.contains(c) {
        assert(s =~= before(s, c) + seq![c] + after(s, c));
    }
    assert forall|i: int| 0 <= i < before(s, c).len() implies before(s, c)[i] != c by {}
}

proof fn lemma_join(a: Seq<char>, c: char, b: Seq<char>)
    requires
        !a.contains(c),
    ensures
        before(a + seq![c] + b, c) == a,
        after(a + seq![c] + b, c) == b,
        (a + seq![c] + b).contains(c),
{
    let s = a + seq![c] + b;
    assert forall|j: int| 0 <= j < a.len() implies s[j] != c by {
        assert(a[j] != c) by {
            if a[j] == c {
                assert(a.contains(c));
            }
        }
    }
    assert(s[a.len() as int] == c);
    lemma_first_index_is(s, c, a.len() as int);
    assert(before(s, c) =~= a);
    assert(after(s, c) =~= b);
}

proof fn lemma_words()
    ensures
        ":"@ == seq![':'],
        "*"@.len() == 1,
        "*"@[0] == '*',
        "*."@.len() == 2,
        "*."@[0] == '*',
        "*."@[1] == '.',
        "/*"@.len() == 2,
        "/*"@[0] == '/',
        "/*"@[1] == '*',
{
    reveal_strlit(":");
    reveal_strlit("*");
    reveal_strlit("*.");
    reveal_strlit("/*");
    assert(":"@ =~= seq![':']);
}

/// Every entry that parses is how the permission that it parses to is written, but for white space
/// around it: nothing of an entry is dropped, taken twice or taken for something else.
pub proof fn law_a_permission_is_what_its_entry_says(entry: Seq<char>)
    ensures
        parsed(entry) is Ok ==> spelled(parsed(entry)->Ok_0) == trimmed(entry),
        parsed(entry) is Ok && parsed(entry)->Ok_0 is AppDefined ==> parsed(entry)->Ok_0->value
            is String,
{
    lemma_words();
    let raw = trimmed(entry);
    let rest = after(raw, ':');
    lemma_parts(raw, ':');
    lemma_parts(rest, ':');
    lemma_parts(after(rest, ':'), ':');
    let last = after(rest, ':');
    if parsed(entry) is Ok {
        match parsed(entry)->Ok_0 {
            PermissionView::NetworkEgress(HostPatternView::Suffix(s)) => {
                assert(last =~= "*."@ + s);
            },
            PermissionView::Blobs(op, PathPatternView::Prefix(s)) => {
                assert(last =~= s + "/*"@);
            },
            _ => {},
        }
    }
}

/// A text has no character that is reserved for wildcards.
proof fn lemma_no_glob(s: Seq<char>)
    requires
        is_literal(s),
    ensures
        first_glob_char(s) is None,
    decreases s.len(),
{
    if s.len() > 0 {
        let t = s.drop_first();
        assert forall|i: int| 0 <= i < t.len() implies !is_glob_char(#[trigger] t[i]) by {
            assert(t[i] == s[i + 1]);
        }
        lemma_no_glob(t);
        assert(!is_glob_char(s[0]));
    }
}

/// A permission that can be written: its texts are there, they have no wildcard and no colon where one
/// would be taken for a separator, and its names are names.
pub open spec fn writable(p: PermissionView) -> bool {
    match p {
        PermissionView::NetworkEgress(HostPatternView::Any) => true,
        PermissionView::NetworkEgress(HostPatternView::Suffix(s)) => s.len() > 0 && is_literal(s)
            && !s.contains(':'),
        PermissionView::NetworkEgress(HostPatternView::Exact(s)) => s.len() > 0 && is_literal(s)
            && !s.contains(':'),
        PermissionView::Blobs(op, PathPatternView::Any) => true,
        PermissionView::Blobs(op, PathPatternView::Prefix(s)) => is_literal(s),
        PermissionView::Blobs(op, PathPatternView::Exact(s)) => s.len() > 0 && is_literal(s),
        PermissionView::StepType(s) => s.len() > 0 && is_literal(s) && step_type_reference_fault(s)
            is None,
        PermissionView::InvokePlugin(NamePatternView::Any) => true,
        PermissionView::InvokePlugin(NamePatternView::Exact(s)) => s.len() > 0 && is_literal(s)
            && name_fault(NameKind::Plugin, s) is None,
        PermissionView::InvokeRole(NamePatternView::Any) => true,
        PermissionView::InvokeRole(NamePatternView::Exact(s)) => s.len() > 0 && is_literal(s)
            && name_fault(NameKind::Role, s) is None,
        PermissionView::ProvideStepType { step_type, selector } => {
            &&& step_type.len() > 0 && is_literal(step_type) && !step_type.contains(':')
            &&& step_type_reference_fault(step_type) is None
            &&& selector is Some ==> selector->0.len() > 0 && is_literal(selector->0) && name_fault(
                NameKind::StepTypeSelector,
                selector->0,
            ) is None
        },
        PermissionView::BindNativeImpl(s) => s.len() > 0 && is_literal(s) && impl_ref_fault(s)
            is None,
        PermissionView::AppDefined { kind, value } => {
            &&& kind.contains('.') && !kind.contains(':')
            &&& value is String && value->String_0.len() > 0
        },
    }
}

/// What is written reads back: every permission that can be written parses to itself.
#[verifier::rlimit(40)]
pub proof fn law_a_permission_reads_back(p: PermissionView)
    requires
        writable(p),
        trimmed(spelled(p)) == spelled(p),
    ensures
        parsed(spelled(p)) == Ok::<PermissionView, PermissionFault>(p),
{
    lemma_words();
    lemma_categories();
    let raw = spelled(p);
    match p {
        PermissionView::NetworkEgress(h) => {
            let pattern = match h {
                HostPatternView::Any => "*"@,
                HostPatternView::Suffix(s) => "*."@ + s,
                HostPatternView::Exact(s) => s,
            };
            lemma_join("network"@, ':', "egress"@ + ":"@ + pattern);
            lemma_join("egress"@, ':', pattern);
            match h {
                HostPatternView::Suffix(s) => {
                    lemma_no_glob(s);
                    assert(pattern.skip(2) =~= s);
                    assert("*."@.is_prefix_of(pattern));
                    assert(pattern.len() > 1);
                    assert(!pattern.contains(':')) by {
                        if pattern.contains(':') {
                            let i = choose|i: int| 0 <= i < pattern.len() && pattern[i] == ':';
                            assert(s[i - 2] == ':');
                        }
                    }
                },
                HostPatternView::Exact(s) => {
                    lemma_no_glob(s);
                    assert(!is_glob_char(s[0]));
                },
                HostPatternView::Any => {},
            }
        },
        PermissionView::Blobs(op, h) => {
            let pattern = match h {
                PathPatternView::Any => "*"@,
                PathPatternView::Prefix(s) => s + "/*"@,
                PathPatternView::Exact(s) => s,
            };
            lemma_join("blobs"@, ':', op_word(op) + ":"@ + pattern);
            lemma_ops(op);
            lemma_join(op_word(op), ':', pattern);
            match h {
                PathPatternView::Prefix(s) => {
                    lemma_no_glob(s);
                    assert(pattern.take(pattern.len() - 2) =~= s);
                    assert("/*"@.is_suffix_of(pattern)) by {
                        assert(pattern.skip(pattern.len() - 2) =~= "/*"@);
                    }
                    assert(pattern.len() > 1);
                },
                PathPatternView::Exact(s) => {
                    lemma_no_glob(s);
                    assert(!is_glob_char(s[0]));
                    assert(!is_glob_char(s[s.len() - 1]));
                    if "/*"@.is_suffix_of(s) {
                        assert(s.skip(s.len() - 2) == "/*"@);
                        assert(s.skip(s.len() - 2)[1] == s[s.len() - 1]);
                    }
                },
                PathPatternView::Any => {},
            }
        },
        PermissionView::StepType(s) => {
            lemma_join("step_type"@, ':', s);
            lemma_no_glob(s);
        },
        PermissionView::InvokePlugin(n) => {
            let name = match n {
                NamePatternView::Any => "*"@,
                NamePatternView::Exact(s) => s,
            };
            lemma_join("invoke"@, ':', "plugin"@ + ":"@ + name);
            lemma_join("plugin"@, ':', name);
            if let NamePatternView::Exact(s) = n {
                lemma_no_glob(s);
                assert(!is_glob_char(s[0]));
            }
        },
        PermissionView::InvokeRole(n) => {
            let name = match n {
                NamePatternView::Any => "*"@,
                NamePatternView::Exact(s) => s,
            };
            lemma_join("invoke"@, ':', "role"@ + ":"@ + name);
            lemma_join("role"@, ':', name);
            if let NamePatternView::Exact(s) = n {
                lemma_no_glob(s);
                assert(!is_glob_char(s[0]));
            }
        },
        PermissionView::ProvideStepType { step_type, selector } => {
            lemma_no_glob(step_type);
            let target = match selector {
                None => step_type,
                Some(s) => step_type + ":"@ + s,
            };
            lemma_join("provide"@, ':', "step_type"@ + ":"@ + target);
            lemma_join("step_type"@, ':', target);
            if let Some(s) = selector {
                lemma_no_glob(s);
                lemma_join(step_type, ':', s);
            }
        },
        PermissionView::BindNativeImpl(s) => {
            lemma_no_glob(s);
            lemma_join("bind"@, ':', "native_impl"@ + ":"@ + s);
            lemma_join("native_impl"@, ':', s);
        },
        PermissionView::AppDefined { kind, value } => {
            lemma_join(kind, ':', value->String_0);
        },
    }
}

proof fn lemma_ops(op: BlobOp)
    ensures
        !op_word(op).contains(':'),
        blob_op(op_word(op)) == Some(op),
{
    reveal_strlit("read");
    reveal_strlit("write");
    reveal_strlit("delete");
    reveal_strlit("list");
    reveal_strlit("stat");
    reveal_strlit("watch");
    assert("read"@[0] == 'r' && "write"@[0] == 'w' && "delete"@[0] == 'd' && "list"@[0] == 'l'
        && "stat"@[0] == 's' && "watch"@[0] == 'w' && "write"@[1] == 'r' && "watch"@[1] == 'a');
}

proof fn lemma_categories()
    ensures
        !"network"@.contains(':'),
        !"egress"@.contains(':'),
        !"blobs"@.contains(':'),
        !"step_type"@.contains(':'),
        !"invoke"@.contains(':'),
        !"plugin"@.contains(':'),
        !"role"@.contains(':'),
        !"provide"@.contains(':'),
        !"bind"@.contains(':'),
        !"native_impl"@.contains(':'),
        !"network"@.contains('.'),
        !"blobs"@.contains('.'),
        !"step_type"@.contains('.'),
        !"invoke"@.contains('.'),
        !"provide"@.contains('.'),
        !"bind"@.contains('.'),
        "network"@ != "blobs"@,
        "step_type"@ != "network"@,
        "step_type"@ != "blobs"@,
        "provide"@ != "network"@,
        "provide"@ != "blobs"@,
        "provide"@ != "step_type"@,
        "bind"@ != "network"@,
        "bind"@ != "blobs"@,
        "bind"@ != "step_type"@,
        "bind"@ != "provide"@,
        "invoke"@ != "network"@,
        "invoke"@ != "blobs"@,
        "invoke"@ != "step_type"@,
        "invoke"@ != "provide"@,
        "invoke"@ != "bind"@,
        "plugin"@ != "role"@,
{
    reveal_strlit("network");
    reveal_strlit("egress");
    reveal_strlit("blobs");
    reveal_strlit("step_type");
    reveal_strlit("invoke");
    reveal_strlit("plugin");
    reveal_strlit("role");
    reveal_strlit("provide");
    reveal_strlit("bind");
    reveal_strlit("native_impl");
    assert("network"@[0] == 'n' && "blobs"@[0] == 'b' && "step_type"@[0] == 's' && "invoke"@[0]
        == 'i' && "provide"@[0] == 'p' && "bind"@[0] == 'b' && "bind"@[1] == 'i' && "blobs"@[1]
        == 'l' && "plugin"@[0] == 'p' && "role"@[0] == 'r');
}

/// A pattern for hosts covers a host whatever the case of its letters: every host, the host that it
/// names, or that host and every one that has it, after a dot, for its end.
pub proof fn law_a_host_pattern_covers_its_hosts(s: Seq<char>, host: Seq<char>, label: Seq<char>)
    ensures
        HostPatternView::Any.covers(host),
        HostPatternView::Exact(s).covers(host) <==> lower(s) == lower(host),
        lower(host) == lower(s) ==> HostPatternView::Suffix(s).covers(host),
        HostPatternView::Suffix(s).covers(host) ==> lower(host) == lower(s) || exists|front: Seq<char>|
            lower(host) == #[trigger] (front + seq!['.'] + lower(s)),
        lower(host) == label + seq!['.'] + lower(s) ==> HostPatternView::Suffix(s).covers(host),
        HostPatternView::Exact(s).covers(host) ==> s.len() == host.len(),
{
    reveal_strlit(".");
    let tail = lower("."@ + s);
    assert(tail =~= seq!['.'] + lower(s)) by {
        assert("."@ =~= seq!['.']);
        assert(lower_char('.') == '.');
    }
    let h = lower(host);
    if tail.is_suffix_of(h) {
        let front = h.take(h.len() - tail.len());
        assert(h =~= front + seq!['.'] + lower(s)) by {
            assert(h.skip(h.len() - tail.len()) == tail);
            assert(h =~= front + h.skip(h.len() - tail.len()));
        }
    }
    if h == label + seq!['.'] + lower(s) {
        assert(h.skip(h.len() - tail.len()) =~= tail);
        assert(tail.is_suffix_of(h));
    }
    if lower(s) == lower(host) {
        assert(lower(s).len() == s.len() && lower(host).len() == host.len());
    }
}

/// A pattern for paths covers a key as it is written: every key, the one that it names, or that one and
/// every one that goes on behind it with a slash. A pattern for names covers every name or the one.
pub proof fn law_a_path_pattern_covers_its_keys(s: Seq<char>, key: Seq<char>, rest: Seq<char>)
    ensures
        PathPatternView::Any.covers(key),
        PathPatternView::Exact(s).covers(key) <==> s == key,
        PathPatternView::Prefix(s).covers(key) ==> key == s || exists|more: Seq<char>|
            key == #[trigger] (s + seq!['/'] + more),
        PathPatternView::Prefix(s).covers(s),
        PathPatternView::Prefix(s).covers(s + seq!['/'] + rest),
        NamePatternView::Any.covers(key),
        NamePatternView::Exact(s).covers(key) <==> s == key,
{
    reveal_strlit("/");
    assert("/"@ =~= seq!['/']);
    let open = s + "/"@;
    if open.is_prefix_of(key) {
        let more = key.skip(open.len() as int);
        assert(key =~= s + seq!['/'] + more) by {
            assert(key.take(open.len() as int) =~= open);
            assert(key =~= key.take(open.len() as int) + more);
        }
    }
    assert((s + seq!['/'] + rest).take(open.len() as int) =~= open);
    assert(open.is_prefix_of(s + seq!['/'] + rest));
}

/// A request is granted where one of the grants is for it, and only there: a grant for hosts covers the
/// host, a grant for an operation on blobs is for that operation and covers the key, a grant for roles
/// covers the role, and a grant for a step type names it.
pub proof fn law_a_request_is_granted_by_a_grant_for_it(
    grants: Seq<Permission>,
    i: int,
    op: BlobOp,
    name: Seq<char>,
)
    requires
        0 <= i < grants.len(),
    ensures
        grants[i]@ is NetworkEgress && grants[i]@->NetworkEgress_0.covers(name) ==> egress_granted(
            grants,
            name,
        ),
        grants[i]@ is Blobs && grants[i]@->Blobs_0 == op && grants[i]@->Blobs_1.covers(name)
            ==> blob_granted(grants, op, name),
        grants[i]@ is InvokeRole && grants[i]@->InvokeRole_0.covers(name) ==> role_granted(
            grants,
            name,
        ),
        grants[i]@ == PermissionView::StepType(name) ==> step_type_granted(grants, name),
        grants_egress(grants[i]@, name) ==> grants[i]@ is NetworkEgress,
        grants_blob(grants[i]@, op, name) ==> grants[i]@ is Blobs && grants[i]@->Blobs_0 == op,
        grants_role(grants[i]@, name) ==> grants[i]@ is InvokeRole,
        grants_step_type(grants[i]@, name) ==> grants[i]@ is StepType && grants[i]@->StepType_0
            == name,
{
    if grants[i]@ is NetworkEgress && grants[i]@->NetworkEgress_0.covers(name) {
        assert(grants_egress(grants[i]@, name));
    }
    if grants[i]@ is Blobs && grants[i]@->Blobs_0 == op && grants[i]@->Blobs_1.covers(name) {
        assert(grants_blob(grants[i]@, op, name));
    }
    if grants[i]@ is InvokeRole && grants[i]@->InvokeRole_0.covers(name) {
        assert(grants_role(grants[i]@, name));
    }
    if grants[i]@ == PermissionView::StepType(name) {
        assert(grants_step_type(grants[i]@, name));
    }
}

/// What is not granted is denied, in the words of the request.
pub proof fn law_a_denial_names_the_request(
    r: PermissionCheck,
    granted: bool,
    requested: Seq<char>,
)
    requires
        decides(r, granted, requested),
    ensures
        r is Granted <==> granted,
        r is Denied ==> r->requested@ == requested,
{
}

/// The permissions of a manifest are read one by one, in their order: where they are read at all, there
/// is one for each entry, which is what the entry says, and one of an embedder's category is of a
/// category that is declared and whose check accepts the value.
pub proof fn law_every_entry_is_read<F: Fn(&str) -> Result<(), String>>(
    raw: Seq<Seq<char>>,
    categories: Seq<AppPermissionCategory<F>>,
    v: Seq<PermissionView>,
    i: int,
)
    requires
        permissions_outcome(raw, categories, Ok(v)),
        0 <= i < raw.len(),
    ensures
        v.len() == raw.len(),
        spelled(v[i]) == trimmed(raw[i]),
        v[i] is AppDefined ==> exists|k: int|
            {
                &&& 0 <= k < categories.len()
                &&& (#[trigger] categories[k]).name_text() == v[i]->AppDefined_kind
                &&& categories[k].answers(v[i]->value->String_0, None)
                &&& forall|j: int|
                    0 <= j < k ==> (#[trigger] categories[j]).name_text() != v[i]->AppDefined_kind
            },
{
    assert(entry_accepted(raw[i], categories, v[i]));
    law_a_permission_is_what_its_entry_says(raw[i]);
    if v[i] is AppDefined {
        let kind = v[i]->AppDefined_kind;
        let k = choose|k: int| #[trigger]
            category_at(categories, kind, k) && categories[k].answers(
                v[i]->value->String_0,
                None,
            );
        assert(categories[k].name_text() == kind);
    }
}

/// An entry that does not parse, or of a category that nobody declared, refuses all the permissions of a
/// manifest.
pub proof fn law_one_bad_entry_refuses_all<F: Fn(&str) -> Result<(), String>>(
    raw: Seq<Seq<char>>,
    categories: Seq<AppPermissionCategory<F>>,
    r: Result<Seq<PermissionView>, PermissionFault>,
    i: int,
)
    requires
        permissions_outcome(raw, categories, r),
        0 <= i < raw.len(),
        parsed(raw[i]) is Err || (parsed(raw[i])->Ok_0 is AppDefined && forall|k: int|
            0 <= k < categories.len() ==> (#[trigger] categories[k]).name_text() != parsed(
                raw[i],
            )->Ok_0->AppDefined_kind),
    ensures
        r is Err,
{
    if r is Ok {
        assert(entry_accepted(raw[i], categories, r->Ok_0[i]));
    }
}

/// A category of an embedder has a dot, which sets it apart from those of the kernel, and no colon,
/// which would end it.
pub proof fn law_an_embedders_category_has_a_dot_and_no_colon(name: Seq<char>)
    ensures
        category_name_fault(name) is None ==> name.contains('.') && !name.contains(':'),
{
}

/// The first entry that does not parse is the one that is told, where those before it are the kernel's
/// own and parse.
pub proof fn law_the_first_bad_entry_is_told<F: Fn(&str) -> Result<(), String>>(
    raw: Seq<Seq<char>>,
    categories: Seq<AppPermissionCategory<F>>,
    r: Result<Seq<PermissionView>, PermissionFault>,
    i: int,
)
    requires
        permissions_outcome(raw, categories, r),
        0 <= i < raw.len(),
        parsed(raw[i]) is Err,
        forall|j: int|
            0 <= j < i ==> parsed(#[trigger] raw[j]) is Ok && !(parsed(raw[j])->Ok_0 is AppDefined),
    ensures
        r == Err::<Seq<PermissionView>, PermissionFault>(parsed(raw[i])->Err_0),
{
    law_one_bad_entry_refuses_all(raw, categories, r, i);
    let e = r->Err_0;
    let k = choose|k: int|
        {
            &&& 0 <= k < raw.len()
            &&& entry_refused(#[trigger] raw[k], categories, e)
            &&& forall|j: int| 0 <= j < k ==> entry_acceptable(#[trigger] raw[j], categories)
        };
    if k < i {
        assert(parsed(raw[k]) is Ok);
    } else if k > i {
        assert(entry_acceptable(raw[i], categories));
        let p = choose|p: PermissionView| entry_accepted(raw[i], categories, p);
        assert(entry_accepted(raw[i], categories, p));
    }
}

/// Entries of the kernel's own categories that parse are all taken, whatever the embedder declares.
pub proof fn law_the_kernels_own_permissions_are_taken<F: Fn(&str) -> Result<(), String>>(
    raw: Seq<Seq<char>>,
    categories: Seq<AppPermissionCategory<F>>,
    r: Result<Seq<PermissionView>, PermissionFault>,
)
    requires
        permissions_outcome(raw, categories, r),
        forall|j: int|
            0 <= j < raw.len() ==> parsed(#[trigger] raw[j]) is Ok && !(parsed(
                raw[j],
            )->Ok_0 is AppDefined),
    ensures
        r is Ok,
        forall|j: int|
            0 <= j < raw.len() ==> #[trigger] r->Ok_0[j] == parsed(raw[j])->Ok_0,
{
    if r is Err {
        let e = r->Err_0;
        let k = choose|k: int|
            {
                &&& 0 <= k < raw.len()
                &&& entry_refused(#[trigger] raw[k], categories, e)
                &&& forall|j: int| 0 <= j < k ==> entry_acceptable(#[trigger] raw[j], categories)
            };
        assert(parsed(raw[k]) is Ok);
    } else {
        assert forall|j: int| 0 <= j < raw.len() implies #[trigger] r->Ok_0[j] == parsed(
            raw[j],
        )->Ok_0 by {
            assert(entry_accepted(raw[j], categories, r->Ok_0[j]));
        }
    }
}

/// A category of an embedder is made of names with a dot between each two.
pub proof fn law_a_category_is_made_of_names(a: Seq<char>, b: Seq<char>)
    requires
        name_fault(NameKind::AppCategorySegment, a) is None,
        name_fault(NameKind::AppCategorySegment, b) is None,
    ensures
        category_name_fault(a + seq!['.'] + b) is None,
        category_name_fault(a) is Some,
        category_name_fault(a + seq!['.']) is Some,
        category_name_fault(seq!['.'] + b) is Some,
        category_name_fault(Seq::empty()) is Some,
{
    reveal_with_fuel(segment_fault, 3);
    lemma_no_dot(a);
    lemma_no_dot(b);
    lemma_join(a, '.', b);
    lemma_join(a, '.', Seq::empty());
    lemma_join(Seq::empty(), '.', b);
    assert(a + seq!['.'] + Seq::<char>::empty() =~= a + seq!['.']);
    assert(Seq::<char>::empty() + seq!['.'] + b =~= seq!['.'] + b);
    lemma_parts(b, '.');
    lemma_whole(b, '.');
    let all = a + seq!['.'] + b;
    assert(!all.contains(':')) by {
        if all.contains(':') {
            let i = choose|i: int| 0 <= i < all.len() && all[i] == ':';
            if i < a.len() {
                assert(a[i] == ':');
                assert(is_name_char(a[i]));
            } else {
                assert(b[i - a.len() - 1] == ':');
                assert(is_name_char(b[i - a.len() - 1]));
            }
        }
    }
    lemma_whole(Seq::empty(), '.');
}

proof fn lemma_whole(s: Seq<char>, c: char)
    requires
        !s.contains(c),
    ensures
        before(s, c) == s,
{
    lemma_first_index(s, c);
    assert(before(s, c) =~= s);
}

proof fn lemma_no_dot(s: Seq<char>)
    requires
        name_fault(NameKind::AppCategorySegment, s) is None,
    ensures
        !s.contains('.'),
{
    if s.contains('.') {
        let i = choose|i: int| 0 <= i < s.len() && s[i] == '.';
        assert(is_name_char(s[i]));
    }
}

} // verus!
