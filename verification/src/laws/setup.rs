//! What holds of names and identities, of limits and deadlines, and of what a kernel is set up with.

use vstd::prelude::*;

use crate::classify::{
    any_steps, classified, classified_text, shape_of, ClassifiedView, ManifestKind, Reading,
};
use crate::config::settled_limits;
use crate::error::{rejects, ErrorView, KernelError};
use crate::identity::{
    chain, impl_ref_fault, is_name_char, local_part, name_fault, namespace_fault, namespace_part,
    on_chain, owner_of_impl_ref, qualified, reference_candidates, reports, step_type_name_fault,
    step_type_reference_fault, NameError, NameErrorView, NameKind,
};
use crate::json::{json_parsed, JsonView, NumberView};
use crate::limits::{are_default, granted_span, RuntimeLimits, Timeout};
use crate::manifest::ActionView;
use crate::native_impls::{gathered, is_reserved, topped_up, EntryView};
use crate::resource_budget::BudgetView;
use crate::spi::{defined_from, resolved as contract_of, role_key, role_keys};
use crate::text::{
    after, before, decimal, is_white_space, lemma_first_index, lemma_first_index_is, lex_le, lower,
    lower_char, trimmed,
};
use crate::wallclock::{is_cancellation, reported_ms, times_out};

verus! {

/// `t` stands at `i` in `s`, with nothing but white space before and behind it.
pub open spec fn surrounded(s: Seq<char>, t: Seq<char>, i: int) -> bool {
    &&& 0 <= i
    &&& i + t.len() <= s.len()
    &&& forall|k: int| 0 <= k < t.len() ==> #[trigger] t[k] == s[i + k]
    &&& forall|k: int| 0 <= k < i ==> is_white_space(#[trigger] s[k])
    &&& forall|k: int| i + t.len() <= k < s.len() ==> is_white_space(#[trigger] s[k])
}

proof fn lemma_surrounded_in(s: Seq<char>, from: int, to: int, t: Seq<char>, i: int)
    requires
        0 <= from <= to <= s.len(),
        forall|k: int| 0 <= k < from ==> is_white_space(#[trigger] s[k]),
        forall|k: int| to <= k < s.len() ==> is_white_space(#[trigger] s[k]),
        surrounded(s.subrange(from, to), t, i),
    ensures
        surrounded(s, t, from + i),
{
    let r = s.subrange(from, to);
    assert forall|k: int| 0 <= k < t.len() implies #[trigger] t[k] == s[from + i + k] by {
        assert(t[k] == r[i + k]);
    }
    assert forall|k: int| 0 <= k < from + i implies is_white_space(#[trigger] s[k]) by {
        if k >= from {
            assert(is_white_space(r[k - from]));
        }
    }
    assert forall|k: int| from + i + t.len() <= k < s.len() implies is_white_space(
        #[trigger] s[k],
    ) by {
        if k < to {
            assert(is_white_space(r[k - from]));
        }
    }
}

/// A text without the white space around it begins and ends with something else, and is a part of the
/// text with nothing but white space before and behind it.
pub proof fn law_trimming_takes_white_space_alone(s: Seq<char>)
    ensures
        trimmed(s).len() > 0 ==> !is_white_space(trimmed(s)[0]) && !is_white_space(
            trimmed(s).last(),
        ),
        exists|i: int| surrounded(s, trimmed(s), i),
    decreases s.len(),
{
    let t = trimmed(s);
    if s.len() > 0 && is_white_space(s[0]) {
        let r = s.drop_first();
        law_trimming_takes_white_space_alone(r);
        let i = choose|i: int| surrounded(r, t, i);
        assert(r =~= s.subrange(1, s.len() as int));
        lemma_surrounded_in(s, 1, s.len() as int, t, i);
    } else if s.len() > 0 && is_white_space(s.last()) {
        let r = s.drop_last();
        law_trimming_takes_white_space_alone(r);
        let i = choose|i: int| surrounded(r, t, i);
        assert(r =~= s.subrange(0, s.len() - 1));
        lemma_surrounded_in(s, 0, s.len() - 1, t, i);
    } else {
        assert(surrounded(s, t, 0));
    }
}

/// Lower case changes capital letters alone, each to the letter that has no capital, and keeps the
/// length.
pub proof fn law_lower_case_changes_capitals_alone(s: Seq<char>, i: int)
    requires
        0 <= i < s.len(),
    ensures
        lower(s).len() == s.len(),
        !('A' <= s[i] <= 'Z') ==> lower(s)[i] == s[i],
        'A' <= s[i] <= 'Z' ==> 'a' <= lower(s)[i] <= 'z' && lower(s)[i] as u32 - 'a' as u32
            == s[i] as u32 - 'A' as u32,
        lower(lower(s)) == lower(s),
{
    assert forall|k: int| 0 <= k < s.len() implies lower_char(lower_char(#[trigger] s[k]))
        == lower_char(s[k]) by {}
    assert(lower(lower(s)) =~= lower(s));
}

/// The value of digits, read from left to right.
pub open spec fn value_of(digits: Seq<char>) -> nat
    decreases digits.len(),
{
    if digits.len() == 0 {
        0
    } else {
        (value_of(digits.drop_last()) * 10 + (digits.last() as u32 - '0' as u32)) as nat
    }
}

/// A number in decimal has that number for its value.
pub proof fn law_decimal_has_its_value(n: nat)
    ensures
        value_of(decimal(n)) == n,
        decimal(n).len() > 0,
    decreases n,
{
    if n >= 10 {
        law_decimal_has_its_value(n / 10);
        assert(decimal(n).drop_last() =~= decimal(n / 10));
    } else {
        assert(decimal(n).drop_last() =~= Seq::empty());
        assert(value_of(decimal(n).drop_last()) == 0);
    }
}

/// A name is one or more letters, digits and underscores; that of a step does not begin with a digit,
/// which the expressions that refer to it could not read.
pub proof fn law_a_name_is_made_of_letters_digits_and_underscores(kind: NameKind, s: Seq<char>)
    ensures
        name_fault(kind, s) is None ==> s.len() > 0,
        name_fault(kind, s) is None ==> forall|i: int|
            0 <= i < s.len() ==> ('a' <= #[trigger] s[i] <= 'z' || 'A' <= s[i] <= 'Z' || '0' <= s[i]
                <= '9' || s[i] == '_'),
        name_fault(NameKind::StepId, s) is None ==> !('0' <= s[0] <= '9'),
        s.len() > 0 && (forall|i: int|
            0 <= i < s.len() ==> ('a' <= #[trigger] s[i] <= 'z' || 'A' <= s[i] <= 'Z' || '0' <= s[i]
                <= '9' || s[i] == '_')) && !('0' <= s[0] <= '9') ==> name_fault(kind, s) is None,
        name_fault(kind, s) is Some ==> name_fault(kind, s)->0.kind == kind && name_fault(
            kind,
            s,
        )->0.name == s,
{
    if s.len() > 0 && (forall|i: int|
        0 <= i < s.len() ==> ('a' <= #[trigger] s[i] <= 'z' || 'A' <= s[i] <= 'Z' || '0' <= s[i]
            <= '9' || s[i] == '_')) {
        assert forall|i: int| 0 <= i < s.len() implies is_name_char(#[trigger] s[i]) by {}
    }
    if name_fault(kind, s) is None {
        assert forall|i: int| 0 <= i < s.len() implies ('a' <= #[trigger] s[i] <= 'z' || 'A' <= s[i]
            <= 'Z' || '0' <= s[i] <= '9' || s[i] == '_') by {
            assert(is_name_char(s[i]));
        }
    }
}

/// A plugin defines step types under its own name alone; the kernel's own manifest can define bare ones
/// too.
pub proof fn law_a_step_type_stands_under_its_plugin(
    s: Seq<char>,
    plugin: Seq<char>,
    local: Seq<char>,
)
    ensures
        name_fault(NameKind::Plugin, local) is None ==> step_type_name_fault(
            plugin + seq!['.'] + local,
            plugin,
            false,
        ) is None,
        step_type_name_fault(s, plugin, false) is None ==> exists|l: Seq<char>|
            s == #[trigger] (plugin + seq!['.'] + l) && name_fault(NameKind::Plugin, l) is None,
        name_fault(NameKind::Plugin, local) is None ==> step_type_name_fault(local, plugin, true)
            is None,
        step_type_name_fault(s, plugin, false) is None ==> step_type_name_fault(s, plugin, true)
            is None,
{
    let own = plugin + seq!['.'] + local;
    let lead = plugin + seq!['.'];
    assert(own.take(lead.len() as int) =~= lead);
    assert(lead.is_prefix_of(own));
    assert(own.skip(plugin.len() as int + 1) =~= local);
    if lead.is_prefix_of(s) {
        let l = s.skip(plugin.len() as int + 1);
        assert(s =~= plugin + seq!['.'] + l) by {
            assert(s.take(lead.len() as int) =~= lead);
            assert(s =~= s.take(lead.len() as int) + l);
        }
    }
}

proof fn lemma_split_at(a: Seq<char>, c: char, b: Seq<char>)
    requires
        !a.contains(c),
    ensures
        before(a + seq![c] + b, c) == a,
        after(a + seq![c] + b, c) == b,
        (a + seq![c] + b).contains(c),
{
    let s = a + seq![c] + b;
    assert forall|j: int| 0 <= j < a.len() implies s[j] != c by {
        if s[j] == c {
            assert(a[j] == c);
            assert(a.contains(c));
        }
    }
    assert(s[a.len() as int] == c);
    lemma_first_index_is(s, c, a.len() as int);
    assert(before(s, c) =~= a);
    assert(after(s, c) =~= b);
}

proof fn lemma_rejoin(s: Seq<char>, c: char)
    requires
        s.contains(c),
    ensures
        s == before(s, c) + seq![c] + after(s, c),
        !before(s, c).contains(c),
{
    lemma_first_index(s, c);
    assert(s =~= before(s, c) + seq![c] + after(s, c));
}

/// The owner of a body is the middle one of the three segments of its implRef; one of any other number
/// of segments has no owner.
pub proof fn law_a_body_belongs_to_its_middle_segment(
    a: Seq<char>,
    b: Seq<char>,
    c: Seq<char>,
    s: Seq<char>,
)
    requires
        !a.contains('.'),
        !b.contains('.'),
        !c.contains('.'),
    ensures
        owner_of_impl_ref(a + seq!['.'] + (b + seq!['.'] + c)) == Some(b),
        owner_of_impl_ref(a) is None,
        owner_of_impl_ref(a + seq!['.'] + b) is None,
        owner_of_impl_ref(a + seq!['.'] + (b + seq!['.'] + (c + seq!['.'] + s))) is None,
{
    lemma_split_at(a, '.', b + seq!['.'] + c);
    lemma_split_at(b, '.', c);
    lemma_split_at(a, '.', b);
    lemma_split_at(a, '.', b + seq!['.'] + (c + seq!['.'] + s));
    lemma_split_at(b, '.', c + seq!['.'] + s);
    lemma_split_at(c, '.', s);
}

/// The identity of a plugin is its name in the root namespace, and its namespace, a slash and its name
/// elsewhere. An identity is seen from its own namespace and from those that the root encloses, and
/// from no other.
pub proof fn law_an_identity_is_made_of_its_namespace_and_its_name(
    namespace: Seq<char>,
    name: Seq<char>,
    target: Seq<char>,
    caller: Seq<char>,
)
    ensures
        qualified(Seq::empty(), name) == name,
        namespace.len() > 0 ==> qualified(namespace, name) == namespace + seq!['/'] + name,
        on_chain(target, caller) <==> namespace_part(target) == namespace_part(caller)
            || namespace_part(target).len() == 0,
        !caller.contains('/') ==> namespace_part(caller).len() == 0 && local_part(caller) == caller,
        namespace_fault(Seq::empty()) is None,
        namespace.len() > 0 ==> (namespace_fault(namespace) is None <==> name_fault(
            NameKind::Namespace,
            namespace,
        ) is None),
{
    reveal_strlit("/");
    assert("/"@ =~= seq!['/']);
    let ns = namespace_part(caller);
    let links = chain(ns);
    if namespace_part(target) == ns {
        assert(links[0] == ns);
    }
    if namespace_part(target).len() == 0 {
        assert(namespace_part(target) =~= Seq::<char>::empty());
        if ns.len() > 0 {
            assert(links[1] == Seq::<char>::empty());
        } else {
            assert(ns =~= Seq::<char>::empty());
            assert(links[0] == ns);
        }
    }
    if on_chain(target, caller) {
        let k = choose|k: int| 0 <= k < links.len() && links[k] == namespace_part(target);
        assert(links[k] == ns || links[k].len() == 0);
    }
}

/// A chain is walked from the namespace outward: it begins with it, ends with the root and names each
/// once; a bare reference denotes a plugin at each of its levels, in that order.
pub proof fn law_a_chain_begins_at_home_and_ends_at_the_root(
    namespace: Seq<char>,
    caller: Seq<char>,
    reference: Seq<char>,
)
    ensures
        chain(namespace).len() > 0,
        chain(namespace)[0] == namespace,
        chain(namespace).last().len() == 0,
        chain(namespace).no_duplicates(),
        reference_candidates(caller, reference).len() == chain(namespace_part(caller)).len(),
        reference_candidates(caller, reference)[0] == qualified(namespace_part(caller), reference),
        reference_candidates(caller, reference).last() == reference,
{
    let links = chain(namespace_part(caller));
    assert(reference_candidates(caller, reference).last() == qualified(links.last(), reference));
}

/// The deadline of an action is the one that it declares, whatever else it is; without one a pipeline
/// has none and any other action the default. An operator's ceiling bounds each of them, and a shorter
/// one stays.
pub proof fn law_a_deadline_is_what_was_declared(limits: RuntimeLimits, action: ActionView, ms: u64)
    ensures
        ({
            let granted = granted_span(limits, action);
            let asked = if action.wallclock_timeout_ms == Some(ms) {
                Some(ms as nat * 1_000_000)
            } else if action.dataflow {
                None::<nat>
            } else {
                Some(limits.default_wallclock_timeout.total())
            };
            action.wallclock_timeout_ms == Some(ms) || action.wallclock_timeout_ms is None ==> {
                &&& limits.max_wallclock_timeout is None ==> granted == asked
                &&& limits.max_wallclock_timeout is Some ==> {
                    let ceiling = limits.max_wallclock_timeout->0.total();
                    &&& asked is None ==> granted == Some(ceiling)
                    &&& asked is Some && asked->0 <= ceiling ==> granted == asked
                    &&& asked is Some && asked->0 > ceiling ==> granted == Some(ceiling)
                }
            }
        }),
{
}

/// The settings give the default deadline where they name one above zero; they change nothing else, and
/// what is no such number changes nothing.
pub proof fn law_settings_give_the_default_deadline(
    limits: RuntimeLimits,
    settings: JsonView,
    ms: u64,
)
    ensures
        ms > 0 && settings.get("defaultWallclockTimeoutMs"@) == Some(
            JsonView::Number(NumberView::PosInt(ms)),
        ) ==> {
            let after = settled_limits(limits, Some(settings));
            &&& after.default_wallclock_timeout.total() == ms as nat * 1_000_000
            &&& after == (RuntimeLimits {
                default_wallclock_timeout: after.default_wallclock_timeout,
                ..limits
            })
        },
        settings.get("defaultWallclockTimeoutMs"@) == Some(
            JsonView::Number(NumberView::PosInt(0)),
        ) ==> settled_limits(limits, Some(settings)) == limits,
        settings.get("defaultWallclockTimeoutMs"@) is None || !(settings.get(
            "defaultWallclockTimeoutMs"@,
        )->0 is Number)
            ==> settled_limits(limits, Some(settings)) == limits,
        settled_limits(limits, None) == limits,
{
    assert((ms / 1000) as nat * 1_000_000_000 + ((ms % 1000) * 1_000_000) as nat == ms as nat
        * 1_000_000) by (nonlinear_arith);
    assert((ms % 1000) * 1_000_000 <= u32::MAX) by (nonlinear_arith)
        requires
            ms % 1000 < 1000,
    ;
}

/// An action that was dropped has timed out, and so has one that its deadline cancelled and that
/// resolved well or to a cancellation; any other outcome is its own, also one behind the deadline.
pub proof fn law_a_deadline_claims_what_it_stopped(e: ErrorView, expired: bool)
    ensures
        times_out(None, expired),
        times_out(Some(None), true),
        !times_out(Some(None), false),
        !times_out(Some(Some(e)), false),
        times_out(Some(Some(e)), true) <==> is_cancellation(e),
{
}

/// A cancellation is one of the action itself or of a deadline, or of a callee of it, at any depth;
/// nothing else is.
pub proof fn law_a_cancelled_callee_is_a_cancellation(
    e: ErrorView,
    step_id: Seq<char>,
    plugin: Seq<char>,
    action: Seq<char>,
)
    ensures
        is_cancellation(
            ErrorView::CalleeFailed { step_id, plugin, action, source: Box::new(e) },
        ) <==> is_cancellation(e),
        e is Cancelled ==> is_cancellation(e),
        e is ExecutionTimeout ==> is_cancellation(e),
        !(e is Cancelled) && !(e is ExecutionTimeout) && !(e is CalleeFailed)
            ==> !is_cancellation(e),
{
}

/// Every body that was submitted is found under its name, and there are no others; two under one name,
/// or a name of the engine from somebody else, is refused.
pub proof fn law_every_submitted_body_is_found<B>(entries: Seq<EntryView<B>>, i: int)
    requires
        0 <= i < entries.len(),
    ensures
        gathered(entries) is Ok ==> {
            let m = gathered(entries)->Ok_0;
            &&& m.contains_key(entries[i].name)
            &&& m[entries[i].name] == entries[i].body
            &&& is_reserved(entries[i].name) ==> entries[i].kernel_owned
            &&& forall|j: int|
                0 <= j < entries.len() && j != i ==> (#[trigger] entries[j]).name != entries[i].name
            &&& forall|name: Seq<char>| #[trigger]
                m.contains_key(name) ==> exists|j: int|
                    0 <= j < entries.len() && (#[trigger] entries[j]).name == name
        },
    decreases entries.len(),
{
    if gathered(entries) is Ok {
        let rest = entries.drop_last();
        let m = gathered(entries)->Ok_0;
        assert(entries[entries.len() - 1] == entries.last());
        if rest.len() > 0 {
            law_every_submitted_body_is_found(
                rest,
                if i < rest.len() {
                    i
                } else {
                    0
                },
            );
        }
        let before = gathered(rest)->Ok_0;
        assert forall|name: Seq<char>| #[trigger] m.contains_key(name) implies exists|j: int|
            0 <= j < entries.len() && (#[trigger] entries[j]).name == name by {
            if name == entries.last().name {
                assert(entries[entries.len() - 1].name == name);
            } else {
                assert(before.contains_key(name));
                if rest.len() > 0 {
                    let j = choose|j: int|
                        0 <= j < rest.len() && (#[trigger] rest[j]).name == name;
                    assert(entries[j] == rest[j]);
                }
            }
        }
        if i < rest.len() {
            assert(rest[i] == entries[i]);
            assert(before.contains_key(entries[i].name));
            assert forall|j: int| 0 <= j < entries.len() && j != i implies (
            #[trigger] entries[j]).name != entries[i].name by {
                if j < rest.len() {
                    assert(rest[j] == entries[j]);
                }
            }
        } else {
            assert forall|j: int| 0 <= j < entries.len() && j != i implies (
            #[trigger] entries[j]).name != entries[i].name by {
                assert(rest[j] == entries[j]);
                law_every_submitted_body_is_found(rest, j);
            }
        }
    }
}

/// Bodies of different names, of which those with a name of the engine are the engine's, are all taken.
pub proof fn law_bodies_of_different_names_are_taken<B>(entries: Seq<EntryView<B>>)
    requires
        forall|i: int, j: int|
            0 <= i < j < entries.len() ==> (#[trigger] entries[i]).name != (
            #[trigger] entries[j]).name,
        forall|i: int|
            0 <= i < entries.len() && is_reserved((#[trigger] entries[i]).name)
                ==> entries[i].kernel_owned,
    ensures
        gathered(entries) is Ok,
    decreases entries.len(),
{
    if entries.len() > 0 {
        let rest = entries.drop_last();
        assert forall|i: int, j: int| 0 <= i < j < rest.len() implies (#[trigger] rest[i]).name != (
        #[trigger] rest[j]).name by {
            assert(rest[i] == entries[i] && rest[j] == entries[j]);
        }
        assert forall|i: int|
            0 <= i < rest.len() && is_reserved((#[trigger] rest[i]).name) implies rest[i].kernel_owned by {
            assert(rest[i] == entries[i]);
        }
        law_bodies_of_different_names_are_taken(rest);
        assert(entries[entries.len() - 1] == entries.last());
        if gathered(rest)->Ok_0.contains_key(entries.last().name) {
            if rest.len() > 0 {
                law_every_submitted_body_is_found(rest, 0);
                let j = choose|j: int|
                    0 <= j < rest.len() && (#[trigger] rest[j]).name == entries.last().name;
                assert(entries[j] == rest[j]);
            }
        }
    }
}

/// The names of the engine are those that begin with `gwead.`.
pub proof fn law_the_engines_names_begin_alike(name: Seq<char>, rest: Seq<char>)
    ensures
        is_reserved("gwead."@ + rest),
        is_reserved(name) ==> name.len() >= 6 && name.take(6) == "gwead."@,
{
    reveal_strlit("gwead.");
    assert(("gwead."@ + rest).take(6) =~= "gwead."@);
    assert("gwead."@.is_prefix_of("gwead."@ + rest));
    if is_reserved(name) {
        assert(name.take(6) =~= "gwead."@);
    }
}

/// Topping up adds the bodies whose names were not there, and takes no name of the engine from somebody
/// else.
pub proof fn law_topping_up_adds_what_is_missing<B>(
    m: Map<Seq<char>, B>,
    entries: Seq<EntryView<B>>,
    i: int,
)
    requires
        0 <= i < entries.len(),
    ensures
        topped_up(m, entries).1 is None ==> {
            &&& topped_up(m, entries).0.contains_key(entries[i].name)
            &&& is_reserved(entries[i].name) ==> entries[i].kernel_owned
            &&& !m.contains_key(entries[i].name) && (forall|j: int|
                0 <= j < i ==> (#[trigger] entries[j]).name != entries[i].name) ==> topped_up(
                m,
                entries,
            ).0[entries[i].name] == entries[i].body
        },
    decreases entries.len(),
{
    if topped_up(m, entries).1 is None {
        let rest = entries.drop_last();
        if i < rest.len() {
            assert(rest[i] == entries[i]);
            law_topping_up_adds_what_is_missing(m, rest, i);
            if forall|j: int| 0 <= j < i ==> (#[trigger] entries[j]).name != entries[i].name {
                assert forall|j: int| 0 <= j < i implies (#[trigger] rest[j]).name
                    != rest[i].name by {
                    assert(rest[j] == entries[j]);
                }
            }
        } else {
            if !m.contains_key(entries[i].name) && (forall|j: int|
                0 <= j < i ==> (#[trigger] entries[j]).name != entries[i].name) {
                assert forall|j: int| 0 <= j < rest.len() implies (#[trigger] rest[j]).name
                    != entries[i].name by {
                    assert(rest[j] == entries[j]);
                }
                lemma_nothing_else(m, rest, entries[i].name);
            }
        }
    }
}

proof fn lemma_nothing_else<B>(m: Map<Seq<char>, B>, entries: Seq<EntryView<B>>, name: Seq<char>)
    requires
        !m.contains_key(name),
        forall|j: int| 0 <= j < entries.len() ==> (#[trigger] entries[j]).name != name,
    ensures
        !topped_up(m, entries).0.contains_key(name),
    decreases entries.len(),
{
    if entries.len() > 0 {
        let rest = entries.drop_last();
        assert forall|j: int| 0 <= j < rest.len() implies (#[trigger] rest[j]).name != name by {
            assert(rest[j] == entries[j]);
        }
        lemma_nothing_else(m, rest, name);
        assert(entries[entries.len() - 1].name != name);
    }
}

/// A document with an action that has steps is a plugin; one whose actions have none is a contract. One
/// without actions is a plugin where it brings step types or modules, and nothing otherwise.
pub proof fn law_a_document_is_known_by_its_shape(
    doc: JsonView,
    actions: Seq<(Seq<char>, JsonView)>,
    i: int,
)
    ensures
        doc.get("actions"@) == Some(JsonView::Object(actions)) && 0 <= i < actions.len()
            && actions[i].1.get("steps"@) is Some ==> shape_of(doc) == Some(ManifestKind::Plugin),
        doc.get("actions"@) == Some(JsonView::Object(actions)) && (forall|k: int|
            0 <= k < actions.len() ==> (#[trigger] actions[k]).1.get("steps"@) is None)
            ==> shape_of(doc) == Some(ManifestKind::SpiDef),
        doc.get("actions"@) is None && doc.get("stepTypeDefs"@) is Some ==> shape_of(doc) == Some(
            ManifestKind::Plugin,
        ),
        doc.get("actions"@) is None && doc.get("wasmModules"@) is Some ==> shape_of(doc) == Some(
            ManifestKind::Plugin,
        ),
        doc.get("actions"@) is None && doc.get("stepTypeDefs"@) is None && doc.get("wasmModules"@)
            is None && doc.get("stepTypeImpls"@) is None ==> shape_of(doc) is None,
{
    if doc.get("actions"@) == Some(JsonView::Object(actions)) && 0 <= i < actions.len()
        && actions[i].1.get("steps"@) is Some {
        assert(any_steps(actions));
    }
}

/// A document is taken for what its shape says, and only where it meets its schema: a plugin with the
/// manifest that was read, a contract under the name that it declares. What is no JSON is nothing.
pub proof fn law_a_document_is_read_by_its_shape(
    text: Seq<char>,
    doc: JsonView,
    reading: Reading,
)
    ensures
        json_parsed(text) is Err ==> classified_text(text, reading) is Err,
        json_parsed(text) == Ok::<JsonView, Seq<char>>(doc) ==> classified_text(text, reading)
            == classified(doc, reading),
        reading.schema is Err ==> classified(doc, reading) is Err,
        shape_of(doc) is None ==> classified(doc, reading) is Err,
        classified(doc, reading) is Ok ==> match classified(doc, reading)->Ok_0 {
            ClassifiedView::Plugin(m) => {
                &&& shape_of(doc) == Some(ManifestKind::Plugin)
                &&& reading.plugin is Ok
                &&& reading.plugin->Ok_0.deep_view() == m
            },
            ClassifiedView::SpiDef { role } => {
                &&& shape_of(doc) == Some(ManifestKind::SpiDef)
                &&& doc.get("name"@) == Some(JsonView::String(role))
            },
        },
        reading.schema is Ok && shape_of(doc) == Some(ManifestKind::Plugin) && reading.plugin is Ok
            ==> classified(doc, reading) is Ok,
        reading.schema is Ok && shape_of(doc) == Some(ManifestKind::SpiDef) && doc.get_str("name"@)
            is Some ==> classified(doc, reading) is Ok,
{
}

/// A role stands for the contract of the own namespace where there is one, else for that of the root
/// where there is one, else for one of the own namespace that is yet to come.
pub proof fn law_a_role_stands_for_the_nearest_contract(
    spi: Map<Seq<char>, Seq<char>>,
    namespace: Seq<char>,
    role: Seq<char>,
)
    ensures
        ({
            let own = qualified(namespace, role);
            &&& spi.contains_key(own) ==> contract_of(spi, namespace, role) == Some(own)
                && role_key(spi, namespace, role) == own
            &&& !spi.contains_key(own) && spi.contains_key(role) ==> contract_of(
                spi,
                namespace,
                role,
            ) == Some(role) && role_key(spi, namespace, role) == role
            &&& !spi.contains_key(own) && !spi.contains_key(role) ==> contract_of(
                spi,
                namespace,
                role,
            ) is None && role_key(spi, namespace, role) == own
        }),
{
    reveal_with_fuel(defined_from, 4);
    let links = chain(namespace);
    if namespace.len() == 0 {
        assert(links.len() == 1 && links[0] == namespace);
    } else {
        assert(links.len() == 2 && links[0] == namespace && links[1].len() == 0);
        assert(qualified(links[1], role) == role);
    }
}

/// The keys of roles are those of each of them, each once.
pub proof fn law_every_role_has_its_key(
    spi: Map<Seq<char>, Seq<char>>,
    namespace: Seq<char>,
    roles: Seq<Seq<char>>,
    i: int,
)
    requires
        0 <= i < roles.len(),
    ensures
        role_keys(spi, namespace, roles).contains(role_key(spi, namespace, roles[i])),
        role_keys(spi, namespace, roles).no_duplicates(),
        forall|k: Seq<char>| #[trigger]
            role_keys(spi, namespace, roles).contains(k) ==> exists|j: int|
                0 <= j < roles.len() && role_key(spi, namespace, #[trigger] roles[j]) == k,
    decreases roles.len(),
{
    let rest = roles.drop_last();
    let before = role_keys(spi, namespace, rest);
    let all = role_keys(spi, namespace, roles);
    let last = role_key(spi, namespace, roles.last());
    assert(roles[roles.len() - 1] == roles.last());
    if rest.len() > 0 {
        law_every_role_has_its_key(
            spi,
            namespace,
            rest,
            if i < rest.len() {
                i
            } else {
                0
            },
        );
    }
    if all != before {
        assert(all[before.len() as int] == last);
        assert forall|k: Seq<char>| before.contains(k) implies all.contains(k) by {
            let j = choose|j: int| 0 <= j < before.len() && before[j] == k;
            assert(all[j] == k);
        }
    }
    assert(all.contains(last));
    if i < rest.len() {
        assert(rest[i] == roles[i]);
    }
    assert forall|k: Seq<char>| #[trigger] all.contains(k) implies exists|j: int|
        0 <= j < roles.len() && role_key(spi, namespace, #[trigger] roles[j]) == k by {
        if k == last {
            assert(role_key(spi, namespace, roles[roles.len() - 1]) == k);
        } else {
            let p = choose|p: int| 0 <= p < all.len() && all[p] == k;
            assert(before[p] == k);
            assert(before.contains(k));
            let j = choose|j: int|
                0 <= j < rest.len() && role_key(spi, namespace, #[trigger] rest[j]) == k;
            assert(roles[j] == rest[j]);
        }
    }
}

/// A budget refuses what is beyond it and grants what is within it: growth up to the whole of what is
/// left, and not a byte more.
pub proof fn law_a_budget_is_used_up_to_its_end(b: BudgetView, current: nat, desired: nat)
    requires
        b.within(),
        current <= b.committed_memory_bytes,
        current <= b.committed_table_elements,
    ensures
        b.memory_fits(current, desired) <==> b.committed_memory_bytes - current + desired
            <= b.max_memory_bytes,
        b.table_fits(current, desired) <==> b.committed_table_elements - current + desired
            <= b.max_table_elements,
        b.memory_grown(current, desired).committed_memory_bytes <= b.max_memory_bytes,
        b.table_grown(current, desired).committed_table_elements <= b.max_table_elements,
        b.memory_grown(current, desired).within(),
        b.table_grown(current, desired).within(),
        b.memory_grown(current, desired).committed_table_elements == b.committed_table_elements,
        b.table_grown(current, desired).committed_memory_bytes == b.committed_memory_bytes,
        b.memory_fits(current, desired) ==> b.memory_grown(current, desired).committed_memory_bytes
            == b.committed_memory_bytes - current + desired,
        b.table_fits(current, desired) ==> b.table_grown(current, desired).committed_table_elements
            == b.committed_table_elements - current + desired,
{
}

/// A reference to a step type is a name, or the name of a plugin, a dot and a name.
pub proof fn law_a_step_type_is_referred_to_by_name(plugin: Seq<char>, local: Seq<char>)
    requires
        name_fault(NameKind::Plugin, plugin) is None,
        name_fault(NameKind::Plugin, local) is None,
    ensures
        step_type_reference_fault(local) is None,
        step_type_reference_fault(plugin + seq!['.'] + local) is None,
        step_type_reference_fault(plugin + seq!['.']) is Some,
        step_type_reference_fault(seq!['.'] + local) is Some,
        step_type_reference_fault(Seq::empty()) is Some,
{
    assert(!plugin.contains('.')) by {
        if plugin.contains('.') {
            let i = choose|i: int| 0 <= i < plugin.len() && plugin[i] == '.';
            assert(is_name_char(plugin[i]));
        }
    }
    lemma_split_at(plugin, '.', local);
    lemma_split_at(plugin, '.', Seq::empty());
    assert(plugin + seq!['.'] + Seq::<char>::empty() =~= plugin + seq!['.']);
    lemma_split_at(Seq::empty(), '.', local);
    assert(Seq::<char>::empty() + seq!['.'] + local =~= seq!['.'] + local);
    let p = plugin + seq!['.'];
    assert(!is_name_char(p[plugin.len() as int]));
    let q = seq!['.'] + local;
    assert(!is_name_char(q[0]));
}

/// An implRef is made of segments of letters, digits, underscores and hyphens with a dot between each
/// two: none of them is empty.
pub proof fn law_an_impl_ref_has_no_empty_segment(s: Seq<char>, i: int)
    requires
        impl_ref_fault(s) is None,
        0 <= i < s.len(),
        s[i] == '.',
    ensures
        0 < i < s.len() - 1,
        s[i + 1] != '.',
        s[i - 1] != '.',
{
    assert(s.last() == s[s.len() - 1]);
    assert(!(s[i] == '.' && s[i - 1] == '.') || i == 0);
    if i + 1 < s.len() {
        assert(!(s[i + 1] == '.' && s[i] == '.'));
    }
}

/// An expired deadline is told in whole milliseconds.
pub proof fn law_a_deadline_is_told_in_milliseconds(t: Timeout, ms: u64)
    requires
        ms as nat * 1_000_000 <= t.total() < (ms as nat + 1) * 1_000_000,
    ensures
        reported_ms(t) == ms,
{
    assert(t.total() / 1_000_000 == ms) by (nonlinear_arith)
        requires
            ms as nat * 1_000_000 <= t.total() < (ms as nat + 1) * 1_000_000,
    ;
}

/// The limits that hold where nobody sets any.
pub proof fn law_the_default_limits(l: RuntimeLimits)
    requires
        are_default(l),
    ensures
        l.fuel_budget == 1_000_000_000,
        l.max_memory_bytes == 64 * 1024 * 1024,
        l.max_step_results_bytes == l.max_memory_bytes,
        l.max_table_elements == 65_536,
        l.max_instances == 32,
        l.max_tables == 64,
        l.max_memories == 16,
        l.default_wallclock_timeout.total() == 60 * 1_000_000_000,
        l.max_wallclock_timeout is None,
        l.max_parallel_branches == 64,
        l.dataflow_events_capacity == 64,
{
}

/// What a field of limits is set to, and what has no ceiling, is not bounded by anything else: without a
/// ceiling a declared deadline is had in full, however long.
pub proof fn law_a_declared_deadline_is_not_shortened(limits: RuntimeLimits, action: ActionView)
    requires
        limits.max_wallclock_timeout is None,
        action.wallclock_timeout_ms is Some,
    ensures
        granted_span(limits, action) == Some(action.wallclock_timeout_ms->0 as nat * 1_000_000),
{
}

/// Texts have an order: any two of them stand in it, two that stand in it both ways are one, and what a
/// text begins with comes no later than the text.
pub proof fn law_texts_have_an_order(a: Seq<char>, b: Seq<char>)
    ensures
        lex_le(a, b) || lex_le(b, a),
        lex_le(a, b) && lex_le(b, a) ==> a == b,
        lex_le(a, a + b),
        a.len() > 0 && b.len() > 0 && a[0] < b[0] ==> lex_le(a, b) && !lex_le(b, a),
        b.len() > 0 ==> !lex_le(a + b, a),
    decreases a.len(),
{
    if a.len() > 0 {
        if b.len() > 0 {
            law_texts_have_an_order(a.drop_first(), b.drop_first());
            if a[0] == b[0] && lex_le(a, b) && lex_le(b, a) {
                assert(a =~= seq![a[0]] + a.drop_first());
                assert(b =~= seq![b[0]] + b.drop_first());
            }
        }
        law_texts_have_an_order(a.drop_first(), b);
        assert((a + b).drop_first() =~= a.drop_first() + b);
        assert((a + b)[0] == a[0]);
    }
}

/// A budget does not give back more than it gave out: a growth from more than all memories, or all tables,
/// together hold is refused, and a growth that is refused changes nothing.
pub proof fn law_a_budget_gives_back_no_more_than_it_gave(b: BudgetView, current: nat, desired: nat)
    ensures
        current > b.committed_memory_bytes ==> !b.memory_fits(current, desired),
        current > b.committed_table_elements ==> !b.table_fits(current, desired),
        !b.memory_fits(current, desired) ==> b.memory_grown(current, desired) == b,
        !b.table_fits(current, desired) ==> b.table_grown(current, desired) == b,
        b.within() ==> b.committed_memory_bytes <= b.max_memory_bytes
            && b.committed_table_elements <= b.max_table_elements,
{
}

/// A fault is an error with its words, and without a fault there is no error.
pub proof fn law_a_fault_is_told(
    r: Result<(), KernelError>,
    words: Seq<char>,
    n: Result<(), NameError>,
    fault: NameErrorView,
)
    ensures
        rejects(r, None) <==> r is Ok,
        rejects(r, Some(words)) <==> r is Err && r->Err_0@ == ErrorView::Validation(words),
        reports(n, None) <==> n is Ok,
        reports(n, Some(fault)) <==> n is Err && n->Err_0@ == fault,
{
}

/// A name is an implRef, a hyphen is one too, and two of them with a dot between them are one again; every
/// fault names the text it is about.
pub proof fn law_an_impl_ref_is_made_of_segments(a: Seq<char>, b: Seq<char>)
    requires
        impl_ref_fault(a) is None,
        impl_ref_fault(b) is None,
    ensures
        impl_ref_fault(a + seq!['.'] + b) is None,
        impl_ref_fault(seq!['-']) is None,
        impl_ref_fault(a + seq!['.']) is Some,
        impl_ref_fault(a + seq!['.'])->0.name == a + seq!['.'],
        forall|s: Seq<char>| #[trigger]
            name_fault(NameKind::StepId, s) is None ==> impl_ref_fault(s) is None,
{
    let s = a + seq!['.'] + b;
    let n = a.len() as int;
    assert(s.last() == b.last());
    assert(s[0] == a[0]);
    assert(a.last() == a[n - 1]);
    assert((a + seq!['.']).last() == '.');
    assert forall|i: int| 0 < i < s.len() implies !(#[trigger] s[i] == '.' && s[i - 1] == '.') by {
        if i < n {
            assert(s[i] == a[i] && s[i - 1] == a[i - 1]);
        } else if i == n {
            assert(s[i - 1] == a[n - 1]);
        } else if i == n + 1 {
            assert(s[i] == b[0]);
        } else {
            assert(s[i] == b[i - n - 1] && s[i - 1] == b[i - n - 2]);
        }
    }
    assert forall|t: Seq<char>| #[trigger] name_fault(NameKind::StepId, t) is None implies impl_ref_fault(
        t,
    ) is None by {
        assert(is_name_char(t[0]));
        assert(is_name_char(t[t.len() - 1]));
        assert forall|i: int| 0 < i < t.len() implies !(#[trigger] t[i] == '.' && t[i - 1] == '.') by {
            assert(is_name_char(t[i]));
        }
    }
}

} // verus!
