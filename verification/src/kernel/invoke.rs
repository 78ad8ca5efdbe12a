//! What is decided before an action of another plugin runs.

use vstd::prelude::*;

use crate::duplicate::Duplicate;
use crate::error::{ErrorView, KernelError};
use crate::json::Json;
use crate::kernel::Kernel;
use crate::kernel::dispatch::{request_fault, DispatchRequest, RequestView};
use crate::manifest::{PlanView, SecretDecl, SecretView, StepView};
use crate::registry::{at, list_at, ActionRegistration, RegistrationView, RegistryView};
use crate::text::{cat5, decimal, decimal_text, join, joined, texts};

verus! {

/// How deep events may lead to events.
pub const DISPATCH_MAX_DEPTH: u32 = 16;

/// How an invocation came about.
pub struct InvocationContext {
    /// How many invocations it is nested in.
    pub invoke_depth: u32,
    /// How many events led to it.
    pub dispatch_depth: u32,
    /// The payload of the event that led to it.
    pub trigger: Option<Json>,
    /// Whether the streams that it leaves open are closed when it ends.
    pub drain_streams: bool,
    /// The handles of streams that steps are to write into.
    pub pre_allocated_outputs: Vec<(String, u32)>,
}

impl InvocationContext {
    /// An invocation by the embedder.
    pub fn top_level() -> (r: Self)
        ensures
            r.invoke_depth == 0,
            r.dispatch_depth == 0,
            r.trigger is None,
            r.drain_streams,
            r.pre_allocated_outputs@.len() == 0,
    {
        InvocationContext {
            invoke_depth: 0,
            dispatch_depth: 0,
            trigger: None,
            drain_streams: true,
            pre_allocated_outputs: Vec::new(),
        }
    }

    /// An invocation by a step of another one.
    pub fn invoked(parent_depth: u32) -> (r: Self)
        requires
            parent_depth < u32::MAX,
        ensures
            r.invoke_depth == parent_depth + 1,
            r.dispatch_depth == 0,
            r.trigger is None,
            !r.drain_streams,
            r.pre_allocated_outputs@.len() == 0,
    {
        InvocationContext {
            invoke_depth: parent_depth + 1,
            dispatch_depth: 0,
            trigger: None,
            drain_streams: false,
            pre_allocated_outputs: Vec::new(),
        }
    }

    /// An invocation by a step of another one, which reads what the step `producer` writes into
    /// `output`.
    pub fn invoked_streaming(parent_depth: u32, producer: String, output: u32) -> (r: Self)
        requires
            parent_depth < u32::MAX,
        ensures
            r.invoke_depth == parent_depth + 1,
            r.dispatch_depth == 0,
            r.trigger is None,
            !r.drain_streams,
            r.pre_allocated_outputs@ == seq![(producer, output)],
    {
        let mut pre_allocated_outputs: Vec<(String, u32)> = Vec::new();
        pre_allocated_outputs.push((producer, output));
        InvocationContext {
            invoke_depth: parent_depth + 1,
            dispatch_depth: 0,
            trigger: None,
            drain_streams: false,
            pre_allocated_outputs,
        }
    }

    /// An invocation by an event.
    pub fn event_dispatched(parent_dispatch_depth: u32, trigger: Json) -> (r: Self)
        requires
            parent_dispatch_depth < DISPATCH_MAX_DEPTH,
        ensures
            r.invoke_depth == 0,
            r.dispatch_depth == parent_dispatch_depth + 1,
            r.trigger == Some(trigger),
            r.drain_streams,
            r.pre_allocated_outputs@.len() == 0,
    {
        InvocationContext {
            invoke_depth: 0,
            dispatch_depth: parent_dispatch_depth + 1,
            trigger: Some(trigger),
            drain_streams: true,
            pre_allocated_outputs: Vec::new(),
        }
    }
}

/// The words for an action that there is not.
pub open spec fn no_action_text(plugin: Seq<char>, action: Seq<char>) -> Seq<char> {
    "No action '"@ + action + "' on plugin '"@ + plugin + "'"@
}

/// The words that begin a message on a streaming call.
pub open spec fn of_streaming(plugin: Seq<char>, action: Seq<char>) -> Seq<char> {
    "io.invoke_streaming: action "@ + plugin + "."@ + action
}

/// The long-running steps.
pub open spec fn producers(steps: Seq<StepView>) -> Seq<Seq<char>>
    decreases steps.len(),
{
    if steps.len() == 0 {
        Seq::empty()
    } else if steps.last().long_running {
        producers(steps.drop_last()).push(steps.last().id)
    } else {
        producers(steps.drop_last())
    }
}

/// The first long-running step, from `i` on, that a step of the same action reads from.
pub open spec fn consumed_producer(steps: Seq<StepView>, plan: PlanView, i: int) -> Option<Seq<char>>
    decreases steps.len() - i,
{
    if i < 0 || i >= steps.len() {
        None
    } else if steps[i].long_running && plan.consumers[i].len() > 0 {
        Some(steps[i].id)
    } else {
        consumed_producer(steps, plan, i + 1)
    }
}

/// The step whose output a streaming caller reads: the action is a dataflow with exactly one
/// long-running step, which no step of the action reads from. Else the error.
pub open spec fn streaming_step(plugin: Seq<char>, action: Seq<char>, a: RegistrationView) -> Result<
    Seq<char>,
    Seq<char>,
> {
    let found = producers(a.action.steps);
    if !a.action.dataflow {
        Err(
            of_streaming(plugin, action)
                + " is not declared `dataflow: true`; use io.invoke for non-streaming calls"@,
        )
    } else if consumed_producer(a.action.steps, a.plan, 0) is Some {
        Err(
            of_streaming(plugin, action) + " long-running step '"@ + consumed_producer(
                a.action.steps,
                a.plan,
                0,
            )->0
                + "' has in-action consumer(s); the output must flow to the parent, not a sibling step"@,
        )
    } else if found.len() == 1 {
        Ok(found[0])
    } else if found.len() == 0 {
        Err(
            of_streaming(plugin, action)
                + " declares `dataflow: true` but has no `long_running` step — nothing to stream from"@,
        )
    } else {
        Err(
            of_streaming(plugin, action) + " has "@ + decimal(found.len()) + " long-running steps ("@
                + joined(found, ", "@)
                + "); exactly one is required so the parent stream destination is unambiguous"@,
        )
    }
}

fn begin_streaming(plugin: &str, action: &str, rest: &str) -> (r: String)
    ensures
        r@ == of_streaming(plugin@, action@) + rest@,
{
    cat5("io.invoke_streaming: action ", plugin, ".", action, rest)
}

/// The step whose output a streaming caller reads.
pub fn streaming_producer(plugin: &str, action: &str, registration: &ActionRegistration) -> (r:
    Result<String, KernelError>)
    requires
        registration.plan.consumers@.len() == registration.action.steps@.len(),
    ensures
        match streaming_step(plugin@, action@, registration.deep_view()) {
            Ok(id) => r is Ok && r->Ok_0@ == id,
            Err(e) => r is Err && r->Err_0@ == ErrorView::Validation(e),
        },
{
    if !registration.action.dataflow {
        return Err(
            KernelError::Validation(
                begin_streaming(
                    plugin,
                    action,
                    " is not declared `dataflow: true`; use io.invoke for non-streaming calls",
                ),
            ),
        );
    }
    let ghost view = registration.deep_view();
    let ghost steps = view.action.steps;
    let mut found: Vec<String> = Vec::new();
    assert(texts(found@) =~= producers(steps.take(0)));
    let mut i: usize = 0;
    while i < registration.action.steps.len()
        invariant
            i <= registration.action.steps@.len(),
            registration.plan.consumers@.len() == registration.action.steps@.len(),
            view == registration.deep_view(),
            view.action.dataflow,
            steps == view.action.steps,
            texts(found@) == producers(steps.take(i as int)),
            consumed_producer(steps, view.plan, 0) == consumed_producer(
                steps,
                view.plan,
                i as int,
            ),
        decreases registration.action.steps@.len() - i,
    {
        let step = &registration.action.steps[i];
        let ghost so_far = texts(found@);
        proof {
            assert(steps[i as int] == step.deep_view());
            assert(steps.take(i as int + 1).drop_last() =~= steps.take(i as int));
            assert(view.plan.consumers[i as int]
                == registration.plan.consumers@[i as int].deep_view());
            assert(registration.plan.consumers@[i as int].deep_view().len()
                == registration.plan.consumers@[i as int]@.len());
        }
        if step.long_running {
            if registration.plan.consumers[i].len() > 0 {
                let mut w = begin_streaming(plugin, action, " long-running step '");
                w.append(step.id.as_str());
                w.append(
                    "' has in-action consumer(s); the output must flow to the parent, not a sibling step",
                );
                return Err(KernelError::Validation(w));
            }
            found.push(step.id.clone());
            assert(texts(found@) =~= so_far.push(step.id@));
        }
        i += 1;
    }
    assert(steps.take(steps.len() as int) =~= steps);
    assert(texts(found@).len() == found@.len());
    if found.len() == 1 {
        assert(texts(found@)[0] == found@[0]@);
        Ok(found[0].clone())
    } else if found.len() == 0 {
        Err(
            KernelError::Validation(
                begin_streaming(
                    plugin,
                    action,
                    " declares `dataflow: true` but has no `long_running` step — nothing to stream from",
                ),
            ),
        )
    } else {
        let count = decimal_text(found.len() as u64);
        let listed = join(&found, ", ");
        let mut w = begin_streaming(plugin, action, " has ");
        w.append(count.as_str());
        w.append(" long-running steps (");
        w.append(listed.as_str());
        w.append("); exactly one is required so the parent stream destination is unambiguous");
        Err(KernelError::Validation(w))
    }
}

/// The words for an action that lacks the flag that the way it is to be run asks for.
pub open spec fn undeclared_flag_text(plugin: Seq<char>, action: Seq<char>, flag: Seq<char>) -> Seq<
    char,
> {
    "action "@ + plugin + "."@ + action + " is not declared `"@ + flag + ": true`"@
}

fn undeclared_flag(plugin: &str, action: &str, flag: &str) -> (r: KernelError)
    ensures
        r@ == ErrorView::Validation(undeclared_flag_text(plugin@, action@, flag@)),
{
    let mut w = cat5("action ", plugin, ".", action, " is not declared `");
    w.append(flag);
    w.append(": true`");
    KernelError::Validation(w)
}

/// Only an action that is declared a dataflow runs as a pipeline behind a handle.
pub fn require_dataflow(plugin: &str, action: &str, registration: &ActionRegistration) -> (r: Result<
    (),
    KernelError,
>)
    ensures
        if registration.deep_view().action.dataflow {
            r is Ok
        } else {
            r is Err && r->Err_0@ == ErrorView::Validation(
                undeclared_flag_text(plugin@, action@, "dataflow"@),
            )
        },
{
    if registration.action.dataflow {
        Ok(())
    } else {
        Err(undeclared_flag(plugin, action, "dataflow"))
    }
}

/// Only an action that is declared continuous runs over and over.
pub fn require_continuous(plugin: &str, action: &str, registration: &ActionRegistration) -> (r: Result<
    (),
    KernelError,
>)
    ensures
        if registration.deep_view().action.continuous {
            r is Ok
        } else {
            r is Err && r->Err_0@ == ErrorView::Validation(
                undeclared_flag_text(plugin@, action@, "continuous"@),
            )
        },
{
    if registration.action.continuous {
        Ok(())
    } else {
        Err(undeclared_flag(plugin, action, "continuous"))
    }
}

/// The words for a nesting that is too deep.
pub open spec fn too_deep_text(cap: u32, caller: Seq<char>, role: Seq<char>) -> Seq<char> {
    "invoke recursion cap ("@ + decimal(cap as nat) + ") exceeded: '"@ + caller
        + "' dispatching role '"@ + role + "'"@
}

/// What keeps a plugin from dispatching by a role: it has no grant for it, or invocations are nested as
/// deep as they may be.
pub open spec fn role_dispatch_fault(
    r: RegistryView,
    caller: Seq<char>,
    role: Seq<char>,
    invoke_depth: u32,
    cap: u32,
) -> Option<Seq<char>> {
    match request_fault(r, caller, RequestView::ByRole { role }) {
        Some(e) => Some(e),
        None => if invoke_depth >= cap {
            Some(too_deep_text(cap, caller, role))
        } else {
            None
        },
    }
}

/// The actions that an event goes to: those that subscribed to it, and none where events that events
/// fired are nested as deep as they may be.
pub open spec fn targets_of(r: RegistryView, event_type: Seq<char>, depth: u32) -> Seq<
    (Seq<char>, Seq<char>),
> {
    if depth >= DISPATCH_MAX_DEPTH {
        Seq::empty()
    } else {
        list_at(r.subscriptions, event_type)
    }
}

/// Why a dispatch was not prepared.
#[derive(Debug)]
pub enum DispatchError {
    RoleUnbound(String),
    SelectionFailed(String),
    ConfigResolutionFailed(String),
}

impl DispatchError {
    /// The kernel's error for it.
    pub fn into_kernel_error(self) -> (r: KernelError)
        ensures
            r == match self {
                DispatchError::RoleUnbound(m) => KernelError::NotFound(m),
                DispatchError::SelectionFailed(m) => KernelError::Execution(m),
                DispatchError::ConfigResolutionFailed(m) => KernelError::Execution(m),
            },
    {
        match self {
            DispatchError::RoleUnbound(m) => KernelError::NotFound(m),
            DispatchError::SelectionFailed(m) => KernelError::Execution(m),
            DispatchError::ConfigResolutionFailed(m) => KernelError::Execution(m),
        }
    }
}

/// The keys of the secrets.
pub open spec fn secret_keys(secrets: Seq<SecretView>) -> Seq<Seq<char>> {
    secrets.map_values(|s: SecretView| s.key)
}

/// The keys of the secrets that are marked overridable.
pub open spec fn overridable_keys(secrets: Seq<SecretView>) -> Seq<Seq<char>>
    decreases secrets.len(),
{
    if secrets.len() == 0 {
        Seq::empty()
    } else if secrets.last().overridable {
        overridable_keys(secrets.drop_last()).push(secrets.last().key)
    } else {
        overridable_keys(secrets.drop_last())
    }
}

/// The keys of the secrets that are declared, and of those that are marked overridable.
pub fn keys_of_secrets(secrets: &Vec<SecretDecl>) -> (r: (Vec<String>, Vec<String>))
    ensures
        texts(r.0@) == secret_keys(secrets.deep_view()),
        texts(r.1@) == overridable_keys(secrets.deep_view()),
{
    let ghost views = secrets.deep_view();
    let mut declared: Vec<String> = Vec::new();
    let mut overridable: Vec<String> = Vec::new();
    assert(texts(overridable@) =~= overridable_keys(views.take(0)));
    let mut i: usize = 0;
    while i < secrets.len()
        invariant
            i <= secrets@.len(),
            views == secrets.deep_view(),
            declared@.len() == i,
            forall|j: int| 0 <= j < i ==> (#[trigger] declared@[j])@ == views[j].key,
            texts(overridable@) == overridable_keys(views.take(i as int)),
        decreases secrets@.len() - i,
    {
        let ghost so_far = texts(overridable@);
        proof {
            assert(views[i as int] == secrets@[i as int].deep_view());
            assert(views.take(i as int + 1).drop_last() =~= views.take(i as int));
        }
        declared.push(secrets[i].key.clone());
        if secrets[i].overridable {
            overridable.push(secrets[i].key.clone());
            assert(texts(overridable@) =~= so_far.push(views[i as int].key));
        }
        i += 1;
    }
    assert(views.take(views.len() as int) =~= views);
    assert(texts(declared@) =~= secret_keys(views));
    (declared, overridable)
}

impl<F: Fn(&str) -> Result<(), String>> Kernel<F> {
    /// An action of a plugin.
    pub fn find_action(&self, plugin: &str, action: &str) -> (r: Result<
        &ActionRegistration,
        KernelError,
    >)
        requires
            self.wf(),
        ensures
            match at(self@.registry.actions, (plugin@, action@)) {
                Some(a) => r is Ok && r->Ok_0.deep_view() == a,
                None => r is Err && r->Err_0@ == ErrorView::NotFound(
                    no_action_text(plugin@, action@),
                ),
            },
    {
        match self.registry.get_action(plugin, action) {
            Some(a) => Ok(a),
            None => Err(
                KernelError::NotFound(cat5("No action '", action, "' on plugin '", plugin, "'")),
            ),
        }
    }

    /// Whether a plugin may dispatch by a role, before a target is picked: it has the grant, and the
    /// nesting is not too deep.
    pub fn check_role_dispatch(&self, caller: &str, role: &str, invoke_depth: u32, cap: u32) -> (r:
        Result<(), KernelError>)
        requires
            self.wf(),
        ensures
            match role_dispatch_fault(self@.registry, caller@, role@, invoke_depth, cap) {
                Some(e) => r is Err && r->Err_0@ == ErrorView::Validation(e),
                None => r is Ok,
            },
    {
        if let Err(e) = self.check_invoke_grant(caller, &DispatchRequest::ByRole { role }) {
            return Err(KernelError::Validation(e));
        }
        if invoke_depth >= cap {
            let n = decimal_text(cap as u64);
            let mut w = cat5(
                "invoke recursion cap (",
                n.as_str(),
                ") exceeded: '",
                caller,
                "' dispatching role '",
            );
            w.append(role);
            w.append("'");
            return Err(KernelError::Validation(w));
        }
        Ok(())
    }

    /// The actions that an event is dispatched to, in the order of their registration; none where
    /// too many events led to this one.
    pub fn event_targets(&self, event_type: &str, parent_dispatch_depth: u32) -> (r: Vec<
        (String, String),
    >)
        requires
            self.wf(),
        ensures
            r.deep_view() == targets_of(self@.registry, event_type@, parent_dispatch_depth),
    {
        let mut r: Vec<(String, String)> = Vec::new();
        if parent_dispatch_depth >= DISPATCH_MAX_DEPTH {
            assert(r.deep_view() =~= Seq::empty());
            return r;
        }
        let targets = self.registry.subscribers_for(event_type);
        let mut i: usize = 0;
        while i < targets.len()
            invariant
                i <= targets@.len(),
                r@.len() == i,
                forall|j: int| 0 <= j < i ==> r@[j].deep_view() == targets@[j].deep_view(),
            decreases targets@.len() - i,
        {
            r.push(targets[i].duplicate());
            i += 1;
        }
        assert(r.deep_view() =~= targets.deep_view());
        r
    }

    /// The keys of the secrets that a plugin declares, and of those that it marks overridable: none
    /// where there is no such plugin.
    pub fn secrets_of(&self, plugin: &str) -> (r: (Vec<String>, Vec<String>))
        requires
            self.wf(),
        ensures
            match at(self@.registry.manifests, plugin@) {
                Some(m) => texts(r.0@) == secret_keys(m.uses_secrets) && texts(r.1@)
                    == overridable_keys(m.uses_secrets),
                None => r.0@.len() == 0 && r.1@.len() == 0,
            },
    {
        match self.registry.get_manifest(plugin) {
            Some(m) => keys_of_secrets(&m.uses_secrets),
            None => (Vec::new(), Vec::new()),
        }
    }
}

/// What came of an action that an event was dispatched to.
pub struct DispatchedActionResult<T> {
    pub plugin: String,
    pub action: String,
    pub result: Result<T, KernelError>,
}

/// The dispatch of one event: its targets run one after the other, each whatever came of the others.
pub struct EventDispatch<T> {
    targets: Vec<(String, String)>,
    results: Vec<DispatchedActionResult<T>>,
}

impl<T> EventDispatch<T> {
    /// The targets.
    pub closed spec fn targets_view(&self) -> Seq<(Seq<char>, Seq<char>)> {
        self.targets.deep_view()
    }

    /// The results so far.
    pub closed spec fn results_view(&self) -> Seq<DispatchedActionResult<T>> {
        self.results@
    }

    /// There is a result for each of the first targets, under its name.
    pub open spec fn wf(&self) -> bool {
        &&& self.results_view().len() <= self.targets_view().len()
        &&& forall|i: int|
            0 <= i < self.results_view().len() ==> (
                (#[trigger] self.results_view()[i]).plugin@,
                self.results_view()[i].action@,
            ) == self.targets_view()[i]
    }

    /// A dispatch before its first target ran.
    pub fn new(targets: Vec<(String, String)>) -> (r: Self)
        ensures
            r.wf(),
            r.targets_view() == targets.deep_view(),
            r.results_view().len() == 0,
    {
        EventDispatch { targets, results: Vec::new() }
    }

    /// The target that is to run next.
    pub fn next_target(&self) -> (r: Option<(&str, &str)>)
        requires
            self.wf(),
        ensures
            match r {
                Some((plugin, action)) => self.results_view().len() < self.targets_view().len()
                    && self.targets_view()[self.results_view().len() as int] == (
                    plugin@,
                    action@,
                ),
                None => self.results_view().len() == self.targets_view().len(),
            },
    {
        let i: usize = self.results.len();
        if i < self.targets.len() {
            assert(self.targets_view()[i as int] == self.targets@[i as int].deep_view());
            Some((self.targets[i].0.as_str(), self.targets[i].1.as_str()))
        } else {
            None
        }
    }

    /// Keeps what came of the target that ran.
    pub fn record(&mut self, result: Result<T, KernelError>)
        requires
            old(self).wf(),
            old(self).results_view().len() < old(self).targets_view().len(),
        ensures
            final(self).wf(),
            final(self).targets_view() == old(self).targets_view(),
            final(self).results_view().len() == old(self).results_view().len() + 1,
            final(self).results_view().drop_last() == old(self).results_view(),
            final(self).results_view().last().result == result,
    {
        let i: usize = self.results.len();
        let ghost before = self.results@;
        assert(self.targets_view()[i as int] == self.targets@[i as int].deep_view());
        let plugin = self.targets[i].0.clone();
        let action = self.targets[i].1.clone();
        self.results.push(DispatchedActionResult { plugin, action, result });
        assert(self.results@.drop_last() =~= before);
        proof {
            assert forall|j: int| 0 <= j < self.results_view().len() implies (
                (#[trigger] self.results_view()[j]).plugin@,
                self.results_view()[j].action@,
            ) == self.targets_view()[j] by {
                if j < before.len() {
                    assert(before[j] == old(self).results_view()[j]);
                }
            }
        }
    }

    /// The results: one for each target, in their order.
    pub fn into_results(self) -> (r: Vec<DispatchedActionResult<T>>)
        ensures
            r@ == self.results_view(),
    {
        self.results
    }
}

} // verus!
