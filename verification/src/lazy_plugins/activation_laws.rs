//! What becomes of plugins when commands are called and jobs end.

use steel::compiler::program::RawProgramWithSymbols;
use vstd::prelude::*;

use super::activation::{
    begin_outcome, begun, collided, completed, finished, initialization_ended, job_failed, job_queued, jobs_up_to, load_begun,
    load_outcome, precompile_begun, precompile_ended, provider, queued_up_to, require_text, state_after_load, ActivationCompletion,
    WorkView,
};
use super::state::{PluginView, RegistrationKind, RegistryView, StateView};
use crate::text::{lemma_find_name, quoted};

verus! {

broadcast use vstd::string::group_string_axioms;

/// Whether two registries hold the same commands and the same plugins, in
/// whatever states.
pub open spec fn same_but_states(a: RegistryView, b: RegistryView) -> bool {
    &&& a.generation == b.generation
    &&& a.builtins == b.builtins
    &&& a.commands == b.commands
    &&& a.logical_plugins == b.logical_plugins
    &&& a.logical_registration_order == b.logical_registration_order
    &&& a.locally_loaded_commands == b.locally_loaded_commands
    &&& a.plugins.len() == b.plugins.len()
    &&& forall|i: int|
        0 <= i < a.plugins.len() ==> (#[trigger] a.plugins[i]).name == b.plugins[i].name && a.plugins[i].modules == b.plugins[i].modules
            && a.plugins[i].initializers == b.plugins[i].initializers && a.plugins[i].kind == b.plugins[i].kind
}

/// Whether only the plugin at `i` can have changed its state.
pub open spec fn only_state(a: RegistryView, b: RegistryView, i: int) -> bool {
    &&& same_but_states(a, b)
    &&& a.initialization_finished == b.initialization_finished
    &&& a.next_job_id == b.next_job_id
    &&& forall|k: int| 0 <= k < a.plugins.len() && k != i ==> (#[trigger] a.plugins[k]).state == b.plugins[k].state
}

/// A change of state changes the state of one plugin and nothing else.
pub proof fn law_states_change_alone(registry: RegistryView, i: int, state: StateView)
    requires
        0 <= i < registry.plugins.len(),
    ensures
        only_state(registry.with_state(i, state), registry, i),
        registry.with_state(i, state).plugins[i].state == state,
{
}

proof fn lemma_plugin_at(registry: RegistryView, name: Seq<char>, i: int)
    requires
        registry.plugin_names().no_duplicates(),
        0 <= i < registry.plugins.len(),
        registry.plugins[i].name == name,
    ensures
        registry.plugin_at(name) == Some(i),
{
    lemma_find_name(registry.plugin_names(), name, 0);
    assert(registry.plugin_names()[i] == name);
}

proof fn lemma_command_at(registry: RegistryView, name: Seq<char>, c: int)
    requires
        registry.command_names().no_duplicates(),
        0 <= c < registry.commands.len(),
        registry.commands[c].name == name,
    ensures
        registry.command_at(name) == Some(c),
{
    lemma_find_name(registry.command_names(), name, 0);
    assert(registry.command_names()[c] == name);
}

/// Whether a command stands at `c` and its plugin at `i`.
pub open spec fn provides(registry: RegistryView, command: Seq<char>, c: int, i: int) -> bool {
    &&& registry.wf()
    &&& 0 <= c < registry.commands.len()
    &&& registry.commands[c].name == command
    &&& 0 <= i < registry.plugins.len()
    &&& registry.plugins[i].name == registry.commands[c].plugin
}

/// A command is provided by the plugin that it names.
pub proof fn law_commands_are_provided_by_their_plugin(registry: RegistryView, command: Seq<char>, c: int, i: int)
    requires
        provides(registry, command, c, i),
    ensures
        provider(registry, command) == Some(i),
{
    lemma_command_at(registry, command, c);
    lemma_plugin_at(registry, registry.commands[c].plugin, i);
}

/// What a call of a command begins: a plugin that was not loaded is compiled from
/// its modules, one that is compiled is run, a loaded one is called, and a failed
/// one answers with its error. A plugin that is being loaded answers with an error
/// too; one that is being compiled in the background also falls back to a load by
/// the next call.
pub proof fn law_calls_begin_by_the_state_of_their_plugin(registry: RegistryView, command: Seq<char>, c: int, i: int)
    requires
        provides(registry, command, c, i),
    ensures
        ({
            let plugin = registry.plugins[i];
            let out = begin_outcome(registry, command);
            let after = begun(registry, command).plugins[i].state;
            match plugin.state {
                StateView::Unloaded | StateView::FallbackPending => out == Ok::<(Seq<char>, WorkView), Seq<char>>(
                    (plugin.name, WorkView::Compile(plugin.modules)),
                ) && after is Activating,
                StateView::Ready(program) => out == Ok::<(Seq<char>, WorkView), Seq<char>>(
                    (plugin.name, WorkView::Precompiled(program)),
                ) && after is Activating,
                StateView::Loaded => out == Ok::<(Seq<char>, WorkView), Seq<char>>((plugin.name, WorkView::Call)) && after is Loaded,
                StateView::Failed(message) => out == Err::<(Seq<char>, WorkView), Seq<char>>(message) && after == plugin.state,
                StateView::Activating => out is Err && after is Activating,
                StateView::Queued { .. } | StateView::Precompiling { .. } => out is Err && after is FallbackPending,
            }
        }),
        only_state(begun(registry, command), registry, i),
{
    law_commands_are_provided_by_their_plugin(registry, command, c, i);
}

/// A command that no plugin provides begins nothing.
pub proof fn law_unknown_commands_begin_nothing(registry: RegistryView, command: Seq<char>)
    requires
        forall|c: int| 0 <= c < registry.commands.len() ==> (#[trigger] registry.commands[c]).name != command,
    ensures
        begin_outcome(registry, command) is Err,
        begun(registry, command) == registry,
{
    lemma_find_name(registry.command_names(), command, 0);
    if let Some(c) = registry.command_at(command) {
        assert(registry.command_names()[c] == registry.commands[c].name);
    }
}

/// A command that waits for a background compilation loads its plugin when it is
/// called again.
pub proof fn law_a_second_call_loads(registry: RegistryView, command: Seq<char>, c: int, i: int)
    requires
        provides(registry, command, c, i),
        registry.plugins[i].state is Queued || registry.plugins[i].state is Precompiling,
    ensures
        begin_outcome(begun(registry, command), command) == Ok::<(Seq<char>, WorkView), Seq<char>>(
            (registry.plugins[i].name, WorkView::Compile(registry.plugins[i].modules)),
        ),
{
    law_calls_begin_by_the_state_of_their_plugin(registry, command, c, i);
    let after = begun(registry, command);
    assert(after.plugin_names() =~= registry.plugin_names());
    assert(after.command_names() =~= registry.command_names());
    assert(after.plugins[i].name == registry.plugins[i].name);
    lemma_command_at(after, command, c);
    lemma_plugin_at(after, after.commands[c].plugin, i);
}

/// The end of an activation sets the state of the plugin that was being activated;
/// of one that was not, and of all others, nothing changes.
pub proof fn law_activations_end_with_their_state(registry: RegistryView, i: int, state: StateView)
    requires
        registry.wf(),
        0 <= i < registry.plugins.len(),
    ensures
        ({
            let after = finished(registry, registry.plugins[i].name, state);
            &&& only_state(after, registry, i)
            &&& registry.plugins[i].state is Activating ==> after.plugins[i].state == state
            &&& !(registry.plugins[i].state is Activating) ==> after.plugins[i].state == registry.plugins[i].state
        }),
{
    lemma_plugin_at(registry, registry.plugins[i].name, i);
}

/// Once a plugin was loaded for a command, the next call of the command only
/// calls it; once loading it failed, the next call answers with the same error.
pub proof fn law_plugins_are_loaded_once(registry: RegistryView, command: Seq<char>, c: int, i: int, error: Option<Seq<char>>)
    requires
        provides(registry, command, c, i),
        begin_outcome(registry, command) is Ok,
        !(registry.plugins[i].state is Loaded),
    ensures
        begin_outcome(finished(begun(registry, command), registry.plugins[i].name, state_after_load(error)), command) == (
        match error {
            None => Ok::<(Seq<char>, WorkView), Seq<char>>((registry.plugins[i].name, WorkView::Call)),
            Some(message) => Err::<(Seq<char>, WorkView), Seq<char>>(message),
        }),
{
    law_calls_begin_by_the_state_of_their_plugin(registry, command, c, i);
    let middle = begun(registry, command);
    assert(middle.plugin_names() =~= registry.plugin_names());
    assert(middle.plugins[i].name == registry.plugins[i].name);
    lemma_plugin_at(middle, registry.plugins[i].name, i);
    let after = finished(middle, registry.plugins[i].name, state_after_load(error));
    assert(after.plugin_names() =~= registry.plugin_names());
    assert(after.command_names() =~= registry.command_names());
    lemma_command_at(after, command, c);
    assert(after.plugins[i].name == registry.plugins[i].name);
    lemma_plugin_at(after, after.commands[c].plugin, i);
}

/// A plugin that is depended on is loaded from its modules at once, also where it
/// is compiled or was to be compiled in the background.
pub proof fn law_dependencies_load_at_once(registry: RegistryView, i: int)
    requires
        registry.wf(),
        0 <= i < registry.plugins.len(),
    ensures
        ({
            let plugin = registry.plugins[i];
            let out = load_outcome(registry, plugin.name);
            let after = load_begun(registry, plugin.name);
            &&& only_state(after, registry, i)
            &&& match plugin.state {
                StateView::Loaded => out == Ok::<WorkView, Seq<char>>(WorkView::Call) && after.plugins[i].state is Loaded,
                StateView::Failed(message) => out == Err::<WorkView, Seq<char>>(message) && after.plugins[i].state == plugin.state,
                StateView::Activating => out is Err && after.plugins[i].state is Activating,
                _ => out == Ok::<WorkView, Seq<char>>(WorkView::Compile(plugin.modules)) && after.plugins[i].state is Activating,
            }
        }),
{
    lemma_plugin_at(registry, registry.plugins[i].name, i);
}

/// Whether one of the first `n` commands belongs to a plugin and its name is taken.
pub open spec fn collides(registry: RegistryView, present: Seq<Seq<char>>, n: int, i: int) -> bool {
    exists|c: int|
        0 <= c < n && (#[trigger] registry.commands[c]).plugin == registry.plugins[i].name && present.contains(
            registry.commands[c].name,
        ) && !registry.locally_loaded_commands.contains(registry.commands[c].name)
}

/// A plugin fails at the end of the initialization exactly where the name of one
/// of its commands is bound and was not bound by a local load; all others keep
/// their state.
pub proof fn law_only_collisions_fail(registry: RegistryView, present: Seq<Seq<char>>, n: int, i: int)
    requires
        registry.wf(),
        0 <= n <= registry.commands.len(),
        0 <= i < registry.plugins.len(),
    ensures
        same_but_states(collided(registry, present, n), registry),
        collided(registry, present, n).initialization_finished == registry.initialization_finished,
        collided(registry, present, n).next_job_id == registry.next_job_id,
        collides(registry, present, n, i) ==> collided(registry, present, n).plugins[i].state is Failed,
        !collides(registry, present, n, i) ==> collided(registry, present, n).plugins[i].state == registry.plugins[i].state,
    decreases n,
{
    if n > 0 {
        law_only_collisions_fail(registry, present, n - 1, i);
        let before = collided(registry, present, n - 1);
        let command = registry.commands[n - 1];
        let own = command.plugin == registry.plugins[i].name && present.contains(command.name)
            && !registry.locally_loaded_commands.contains(command.name);
        assert(collides(registry, present, n, i) <==> collides(registry, present, n - 1, i) || own) by {
            if collides(registry, present, n - 1, i) {
                let c = choose|c: int|
                    0 <= c < n - 1 && (#[trigger] registry.commands[c]).plugin == registry.plugins[i].name && present.contains(
                        registry.commands[c].name,
                    ) && !registry.locally_loaded_commands.contains(registry.commands[c].name);
                assert(0 <= c < n && registry.commands[c].plugin == registry.plugins[i].name);
            }
            if own {
                assert(registry.commands[n - 1].plugin == registry.plugins[i].name);
            }
        }
        lemma_find_name(registry.plugin_names(), command.plugin, 0);
        assert(registry.plugin_at(command.plugin) is Some);
        let at = registry.plugin_at(command.plugin)->0;
        assert(registry.plugins[at].name == command.plugin);
        if command.plugin == registry.plugins[i].name {
            lemma_plugin_at(registry, command.plugin, i);
        }
    }
}

/// Whether a plugin is to be compiled in the background.
pub open spec fn is_waiting(plugin: PluginView) -> bool {
    plugin.kind == RegistrationKind::Async && plugin.state is Unloaded
}

/// How many of the first `n` plugins are to be compiled in the background.
pub open spec fn waiting_among(plugins: Seq<PluginView>, n: int) -> int
    decreases n,
{
    if n <= 0 {
        0
    } else if is_waiting(plugins[n - 1]) {
        waiting_among(plugins, n - 1) + 1
    } else {
        waiting_among(plugins, n - 1)
    }
}

/// Every asynchronous plugin that is not loaded gets a job of its own, and no
/// other plugin does: its job has the next number that is free.
pub proof fn law_waiting_plugins_are_queued(registry: RegistryView, n: int, i: int)
    requires
        0 <= n <= registry.plugins.len(),
        0 <= i < registry.plugins.len(),
        registry.next_job_id + waiting_among(registry.plugins, n) <= u64::MAX,
    ensures
        ({
            let after = queued_up_to(registry, n);
            &&& same_but_states(after, registry)
            &&& after.initialization_finished == registry.initialization_finished
            &&& after.next_job_id == registry.next_job_id + waiting_among(registry.plugins, n)
            &&& i < n && is_waiting(registry.plugins[i]) ==> after.plugins[i].state == (StateView::Queued {
                job_id: (registry.next_job_id + waiting_among(registry.plugins, i)) as u64,
            })
            &&& i >= n || !is_waiting(registry.plugins[i]) ==> after.plugins[i].state == registry.plugins[i].state
            &&& jobs_up_to(registry, n).len() == waiting_among(registry.plugins, n)
            &&& waiting_among(registry.plugins, n) >= 0
        }),
        i < n && is_waiting(registry.plugins[i]) ==> 0 <= waiting_among(registry.plugins, i) < waiting_among(registry.plugins, n)
            && jobs_up_to(registry, n)[waiting_among(registry.plugins, i)] == (
            registry.plugins[i].name,
            (registry.next_job_id + waiting_among(registry.plugins, i)) as u64,
        ),
    decreases n,
{
    if n > 0 {
        lemma_waiting_grows(registry.plugins, n);
        law_waiting_plugins_are_queued(registry, n - 1, i);
        if i == n - 1 {
            lemma_waiting_grows(registry.plugins, n - 1);
        }
    }
}

proof fn lemma_waiting_grows(plugins: Seq<PluginView>, n: int)
    ensures
        waiting_among(plugins, n) >= 0,
        waiting_among(plugins, n) >= waiting_among(plugins, n - 1),
    decreases n,
{
    if n > 0 {
        lemma_waiting_grows(plugins, n - 1);
    }
}

/// The end of the initialization of another generation starts no job.
pub proof fn law_other_generations_start_no_jobs(
    before: RegistryView,
    present: Seq<Seq<char>>,
    generation: usize,
    after: RegistryView,
    jobs: Seq<(Seq<char>, u64)>,
)
    requires
        before.wf(),
        initialization_ended(before, present, generation, after, jobs),
    ensures
        before.generation != generation ==> jobs.len() == 0 && after.initialization_finished == before.initialization_finished,
        before.generation == generation && before.plugins.len() == 0 ==> after.initialization_finished,
{
    if before.plugins.len() > 0 {
        law_only_collisions_fail(before, present, before.commands.len() as int, 0);
    } else {
        lemma_no_plugins(before, present, before.commands.len() as int);
    }
}

proof fn lemma_no_plugins(registry: RegistryView, present: Seq<Seq<char>>, n: int)
    requires
        registry.plugins.len() == 0,
    ensures
        collided(registry, present, n).initialization_finished == registry.initialization_finished,
        collided(registry, present, n).plugins.len() == 0,
    decreases n,
{
    if n > 0 {
        lemma_no_plugins(registry, present, n - 1);
    }
}

/// A background job moves its plugin on only where the plugin waits for this very
/// job in this very generation: to compiling, to ready with the program, or, where
/// there is no program or the job failed, to a load by the next call.
pub proof fn law_jobs_move_their_plugin_on(
    registry: RegistryView,
    generation: usize,
    i: int,
    job_id: u64,
    object: Option<RawProgramWithSymbols>,
)
    requires
        registry.wf(),
        0 <= i < registry.plugins.len(),
    ensures
        ({
            let name = registry.plugins[i].name;
            let state = registry.plugins[i].state;
            let queued = registry.generation == generation && state == (StateView::Queued { job_id });
            let compiling = registry.generation == generation && state == (StateView::Precompiling { job_id });
            let begun = precompile_begun(registry, generation, name, job_id);
            let ended = precompile_ended(registry, generation, name, job_id, object);
            let failed = job_failed(registry, generation, name, job_id);
            &&& only_state(begun, registry, i) && only_state(ended, registry, i) && only_state(failed, registry, i)
            &&& begun.plugins[i].state == (if queued {
                StateView::Precompiling { job_id }
            } else {
                state
            })
            &&& compiling && object is Some ==> ended.plugins[i].state == StateView::Ready(object->0)
            &&& compiling && object is None ==> ended.plugins[i].state is FallbackPending
            &&& !compiling ==> ended.plugins[i].state == state
            &&& queued || compiling ==> failed.plugins[i].state is FallbackPending
            &&& !queued && !compiling ==> failed.plugins[i].state == state
        }),
{
    lemma_plugin_at(registry, registry.plugins[i].name, i);
}

/// The program that loads modules requires each of them, in their order.
pub proof fn law_every_module_is_required(modules: Seq<Seq<char>>, module: Seq<char>)
    ensures
        require_text(Seq::<Seq<char>>::empty()).len() == 0,
        require_text(modules.push(module)) == require_text(modules) + "(require "@ + quoted(module) + ")\n"@,
{
    assert(modules.push(module).drop_last() =~= modules);
    assert(modules.push(module).last() == module);
}

/// A new generation keeps the built-in names and nothing else.
pub proof fn law_a_new_generation_starts_empty(registry: RegistryView, generation: usize)
    ensures
        ({
            let after = registry.emptied(generation);
            &&& after.generation == generation
            &&& after.builtins == registry.builtins
            &&& after.plugins.len() == 0 && after.commands.len() == 0
            &&& after.logical_plugins.len() == 0 && after.logical_registration_order.len() == 0
            &&& after.locally_loaded_commands.len() == 0
            &&& !after.initialization_finished
            &&& after.next_job_id == 0
        }),
{
}

/// An activation that is completed leaves its plugin loaded, to be compiled again,
/// or failed with the message.
pub proof fn law_completions_leave_their_state(message: String)
    ensures
        completed(ActivationCompletion::Loaded) is Loaded,
        completed(ActivationCompletion::FallbackPending) is FallbackPending,
        completed(ActivationCompletion::Failed(message)) == StateView::Failed(message@),
        state_after_load(None) is Loaded,
        state_after_load(Some(message@)) == StateView::Failed(message@),
{
}

/// A job is begun exactly where its plugin is queued for it.
pub proof fn law_queued_jobs_are_begun(registry: RegistryView, generation: usize, i: int, job_id: u64)
    requires
        registry.wf(),
        0 <= i < registry.plugins.len(),
    ensures
        job_queued(registry, generation, registry.plugins[i].name, job_id) <==> registry.generation == generation
            && registry.plugins[i].state == (StateView::Queued { job_id }),
{
    lemma_plugin_at(registry, registry.plugins[i].name, i);
}

} // verus!
