use std::path::PathBuf;
use std::sync::atomic::{AtomicUsize, Ordering};
use std::sync::Arc;

use helix_extensions::lazy_plugins::activation::{
    callable_value, module_source, ActivationCompletion, ActivationWork, ArtifactLoadError,
};
use helix_extensions::lazy_plugins::loading::Activation;
use helix_extensions::lazy_plugins::local_dependencies::parse_local_dependencies;
use helix_extensions::lazy_plugins::materialization::Materialize;
use helix_extensions::lazy_plugins::state::{ActivationState, LazyError, RegistrationKind, Registry, TypedCommand};
use helix_extensions::value::ScriptValue;
use steel::compiler::program::RawProgramWithSymbols;
use steel::rvals::IntoSteelVal;
use steel::steel_vm::builtin::BuiltInModule;
use steel::steel_vm::engine::Engine;
use steel::steel_vm::register_fn::RegisterFn;
use steel::{SteelErr, SteelVal};

const ENTRY: &str = "/";

fn docs(command: &str) -> Vec<(String, String)> {
    vec![(command.to_string(), format!("Documentation for {command}"))]
}

fn test_registry() -> Registry {
    Registry::new(1, vec!["quit".to_string(), "write".to_string()])
}

fn state_of<'a>(registry: &'a mut Registry, plugin: &str) -> &'a mut ActivationState {
    &mut registry.plugins.iter_mut().find(|candidate| candidate.name == plugin).unwrap().state
}

fn set_ready_plugin(registry: &mut Registry, plugin: &str, object: RawProgramWithSymbols) {
    *state_of(registry, plugin) = ActivationState::Ready(object);
}

fn lazy_error(error: SteelErr) -> LazyError {
    LazyError { message: error.to_string() }
}

fn compile_modules(engine: &mut Engine, modules: &[String]) -> Result<RawProgramWithSymbols, String> {
    engine.emit_raw_program(module_source(&modules.to_vec()), PathBuf::from(ENTRY)).map_err(|error| error.to_string())
}

fn run_program(engine: &mut Engine, program: String) -> Result<(), LazyError> {
    engine.compile_and_run_raw_program_with_path(program, PathBuf::from(ENTRY)).map(|_| ()).map_err(lazy_error)
}

fn compile_and_run_modules(engine: &mut Engine, modules: &[String]) -> Result<(), LazyError> {
    run_program(engine, module_source(&modules.to_vec()))
}

fn call_resolved_function_by_name(
    engine: &mut Engine,
    function: &str,
    args: Vec<SteelVal>,
) -> Result<SteelVal, LazyError> {
    let function = callable_value(engine, function)?;
    engine.call_function_with_args(function, args).map_err(lazy_error)
}

fn activate_and_call(
    registry: &mut Registry,
    engine: &mut Engine,
    command: &str,
    args: Vec<SteelVal>,
) -> Result<SteelVal, LazyError> {
    call_with_loader(registry, engine, command, args, link_and_run)
}

fn call_with_loader(
    registry: &mut Registry,
    engine: &mut Engine,
    command: &str,
    args: Vec<SteelVal>,
    loader: fn(&mut Engine, RawProgramWithSymbols) -> Result<(), ArtifactLoadError>,
) -> Result<SteelVal, LazyError> {
    let mut step = registry.activate_and_call(command);
    loop {
        step = match step {
            Activation::Run { program, running } => registry.modules_ran(running, run_program(engine, program)),
            Activation::Load { object, loading } => registry.program_loaded(loading, loader(engine, object)),
            Activation::Initialize { function, initializing } => {
                let called = call_resolved_function_by_name(engine, &function, Vec::new());
                registry.initializer_called(initializing, called.map(|_| ()))
            },
            Activation::Ready => return call_resolved_function_by_name(engine, command, args),
            Activation::Failed(error) => return Err(error),
        };
    }
}

fn link_and_run(engine: &mut Engine, object: RawProgramWithSymbols) -> Result<(), ArtifactLoadError> {
    let executable =
        engine.raw_program_to_executable(object).map_err(|error| ArtifactLoadError::Safe(error.to_string()))?;
    engine
        .run_executable(&executable)
        .map(|_| ())
        .map_err(|error| ArtifactLoadError::Execution(LazyError { message: error.to_string() }))
}

fn materialize_local_dependencies(
    registry: &mut Registry,
    engine: &mut Engine,
    source: &str,
    path: &str,
) -> Result<(), LazyError> {
    let mut step = registry.materialize_local_dependencies(engine, source, path);
    loop {
        step = match step {
            Materialize::Run { program, next } => registry.materialize_step(next, run_program(engine, program)),
            Materialize::Initialize { function, next } => {
                let called = call_resolved_function_by_name(engine, &function, Vec::new());
                registry.materialize_step(next, called.map(|_| ()))
            },
            Materialize::Done { before } => {
                registry.finish_materialization(engine, &before);
                return Ok(());
            },
            Materialize::Nothing => return Ok(()),
            Materialize::Failed(error) => return Err(error),
        };
    }
}

fn precompile_one(registry: &mut Registry, generation: usize, plugin: &str, job_id: u64) {
    if let Some(modules) = registry.begin_precompile(generation, plugin, job_id) {
        let compiled = compile_modules(&mut Engine::new(), &modules);
        registry.finish_precompile(generation, plugin, job_id, compiled.ok());
    }
}

fn register_shared_load_counter(engine: &mut Engine, counter: Arc<AtomicUsize>) {
    engine.register_fn("lazy-test-shared-loaded!", move || {
        counter.fetch_add(1, Ordering::SeqCst);
        SteelVal::Void
    });
}

fn register_prefixed_builtin(engine: &mut Engine) {
    let mut module = BuiltInModule::new("lazy-test/prefixed-builtin");
    module.register_fn("builtin-target", || "builtin-target");
    engine.register_module(module);
}

#[test]
fn registration_completion_and_docs_exist_before_loading() {
    let mut registry = test_registry();
    registry.register_lazy_plugin(
        "test".into(),
        vec!["test/module.scm".into()],
        vec!["test-init!".into()],
        docs("test-command"),
    )
    .unwrap();
    assert!(registry.recognizes("test-command"));
    assert_eq!(
        registry.documentation("test-command").as_deref(),
        Some("Documentation for test-command")
    );
    assert_eq!(registry.available_commands(), vec!["test-command"]);
}

#[test]
fn registration_duplicate_plugin_command_and_builtin_collisions_are_rejected() {
    let mut registry = test_registry();
    registry.register_lazy_plugin(
        "one".into(),
        vec!["one.scm".into()],
        Vec::new(),
        docs("one-command"),
    )
    .unwrap();
    assert!(registry.register_lazy_plugin(
        "one".into(),
        vec!["two.scm".into()],
        Vec::new(),
        docs("two-command"),
    )
    .is_err());
    assert!(registry.register_lazy_plugin(
        "two".into(),
        vec!["two.scm".into()],
        Vec::new(),
        docs("one-command"),
    )
    .is_err());
    assert!(registry.register_lazy_plugin(
        "builtin".into(),
        vec!["builtin.scm".into()],
        Vec::new(),
        docs("quit"),
    )
    .is_err());
}

#[test]
fn preindexed_logical_manifest_retains_ownership_and_docs() {
    let mut registry = test_registry();
    registry.register_logical_plugin("catalog".into(), vec!["catalog.scm".into()]).unwrap();
    registry.register_logical_lazy_plugin(
        "catalog".into(),
        "catalog/first".into(),
        vec!["first.scm".into()],
        Vec::new(),
        docs("catalog-first"),
    )
    .unwrap();
    registry.register_logical_lazy_plugin(
        "catalog".into(),
        "catalog/second".into(),
        vec!["second.scm".into()],
        Vec::new(),
        docs("catalog-second"),
    )
    .unwrap();

    assert_eq!(
        registry.documentation("catalog-first").as_deref(),
        Some("Documentation for catalog-first")
    );
    assert_eq!(
        registry.logical_plugin_strategy("catalog").as_deref(),
        Some("lazy")
    );
    assert_eq!(
        registry.logical_plugins[0].manifests,
        vec!["catalog/first", "catalog/second"]
    );
}

#[test]
fn preindexed_logical_manifest_uses_existing_validation() {
    let mut registry = test_registry();
    registry.register_logical_plugin("catalog".into(), vec!["catalog.scm".into()]).unwrap();

    assert!(registry.register_logical_lazy_plugin(
        "catalog".into(),
        "catalog/empty".into(),
        vec!["empty.scm".into()],
        Vec::new(),
        Vec::new(),
    )
    .is_err());
    assert!(registry.register_logical_lazy_plugin(
        "catalog".into(),
        "catalog/builtin".into(),
        vec!["builtin.scm".into()],
        Vec::new(),
        docs("quit"),
    )
    .is_err());
}

#[test]
fn registration_recursive_activation_and_failures_are_retained_until_reset() {
    let mut registry = test_registry();
    registry.register_lazy_plugin(
        "test".into(),
        vec!["test.scm".into()],
        Vec::new(),
        docs("test-command"),
    )
    .unwrap();
    let (plugin, _) = registry.begin_activation("test-command").unwrap();
    assert!(registry.begin_activation("test-command")
        .err().unwrap().message
        .contains("recursive activation"));
        registry.finish_activation(&plugin, ActivationCompletion::Failed("remember me".into()));
    assert!(registry.begin_activation("test-command")
        .err().unwrap().message
        .contains("remember me"));
    registry.reset(2);
    assert!(!registry.recognizes("test-command"));
}

#[test]
fn precompiled_module_execution_failures_are_retained() {
    let mut registry = test_registry();
    let mut worker = Engine::new();
    worker.register_steel_module(
        "lazy-test/module-fail.scm".into(),
        r#"
                (provide module-fail-command)
                (error "module execution failed")
                (define (module-fail-command) 1)
            "#
        .into(),
    );
    let object = compile_modules(&mut worker, &["lazy-test/module-fail.scm".into()]).unwrap();
    let mut foreground = Engine::new();
    registry.register_async_lazy_plugin(
        "module-fail".into(),
        vec!["lazy-test/module-fail.scm".into()],
        Vec::new(),
        docs("module-fail-command"),
    )
    .unwrap();
    set_ready_plugin(&mut registry, "module-fail", object);

    let error = activate_and_call(&mut registry, &mut foreground, "module-fail-command", Vec::new())
        .unwrap_err().message;
    assert!(error.contains("module execution failed"));
    assert!(registry.begin_activation("module-fail-command")
        .err().unwrap().message
        .contains("module execution failed"));
}

#[test]
fn command_and_initializer_aliases_to_prefixed_imports_are_callable() {
    let mut registry = test_registry();
    let mut engine = Engine::new();
    engine.register_steel_module(
        "lazy-test/alias-target.scm".into(),
        r#"
                (provide alias-target-command alias-target-init!)
                (define alias-target-state "cold")
                (define (alias-target-init!)
                  (set! alias-target-state "ready"))
                (define (alias-target-command suffix)
                  (string-append alias-target-state suffix))
            "#
        .into(),
    );
    engine.register_steel_module(
        "lazy-test/alias-wrapper.scm".into(),
        r#"
                (require (prefix-in target. "lazy-test/alias-target.scm"))
                (provide alias-command alias-init!)
                (define alias-command target.alias-target-command)
                (define alias-init! target.alias-target-init!)
            "#
        .into(),
    );
    registry.register_lazy_plugin(
        "alias".into(),
        vec![
            "lazy-test/alias-target.scm".into(),
            "lazy-test/alias-wrapper.scm".into(),
        ],
        vec!["alias-init!".into()],
        docs("alias-command"),
    )
    .unwrap();

    let first = activate_and_call(&mut registry,
        &mut engine,
        "alias-command",
        vec!["!".into_steelval().unwrap()],
    )
    .unwrap();
    let second = activate_and_call(&mut registry,
        &mut engine,
        "alias-command",
        vec!["?".into_steelval().unwrap()],
    )
    .unwrap();

    assert_eq!(first.to_string(), "\"ready!\"");
    assert_eq!(second.to_string(), "\"ready?\"");
}

#[test]
fn command_bodies_can_apply_prefixed_builtin_function_values() {
    let mut registry = test_registry();
    let mut engine = Engine::new();
    register_prefixed_builtin(&mut engine);
    engine.register_steel_module(
        "lazy-test/prefixed-builtin-value-caller.scm".into(),
        r#"
                (require-builtin lazy-test/prefixed-builtin as builtin.)
                (provide prefixed-builtin-value-command)
                (define (call-action action)
                  (action))
                (define (prefixed-builtin-value-command)
                  (call-action builtin.builtin-target))
            "#
        .into(),
    );
    registry.register_lazy_plugin(
        "prefixed-builtin-value".into(),
        vec!["lazy-test/prefixed-builtin-value-caller.scm".into()],
        Vec::new(),
        docs("prefixed-builtin-value-command"),
    )
    .unwrap();

    assert_eq!(
        activate_and_call(&mut registry, &mut engine, "prefixed-builtin-value-command", Vec::new()).unwrap(),
        SteelVal::StringV("builtin-target".into())
    );
}

#[test]
fn command_bodies_can_call_prefixed_builtins_after_lazy_activation() {
    let mut registry = test_registry();
    let mut engine = Engine::new();
    register_prefixed_builtin(&mut engine);
    engine.register_steel_module(
        "lazy-test/prefixed-builtin-caller.scm".into(),
        r#"
                (require-builtin lazy-test/prefixed-builtin as builtin.)
                (provide prefixed-builtin-command)
                (define (prefixed-builtin-command)
                  (builtin.builtin-target))
            "#
        .into(),
    );
    registry.register_lazy_plugin(
        "prefixed-builtin".into(),
        vec!["lazy-test/prefixed-builtin-caller.scm".into()],
        Vec::new(),
        docs("prefixed-builtin-command"),
    )
    .unwrap();

    assert_eq!(
        activate_and_call(&mut registry, &mut engine, "prefixed-builtin-command", Vec::new()).unwrap(),
        SteelVal::StringV("builtin-target".into())
    );
}

#[test]
fn command_bodies_can_call_prefixed_imports_after_lazy_activation() {
    let mut registry = test_registry();
    let mut engine = Engine::new();
    engine.register_steel_module(
        "lazy-test/prefixed-target.scm".into(),
        r#"
                (provide prefixed-target)
                (define (prefixed-target suffix)
                  (string-append "target:" suffix))
            "#
        .into(),
    );
    engine.register_steel_module(
        "lazy-test/prefixed-caller.scm".into(),
        r#"
                (require (prefix-in target. "lazy-test/prefixed-target.scm"))
                (provide prefixed-command prefixed-init!)
                (define prefixed-state "cold")
                (define (prefixed-init!)
                  (set! prefixed-state (target.prefixed-target "init")))
                (define (prefixed-command suffix)
                  (string-append prefixed-state ":" (target.prefixed-target suffix)))
            "#
        .into(),
    );
    registry.register_lazy_plugin(
        "prefixed".into(),
        vec![
            "lazy-test/prefixed-target.scm".into(),
            "lazy-test/prefixed-caller.scm".into(),
        ],
        vec!["prefixed-init!".into()],
        docs("prefixed-command"),
    )
    .unwrap();

    let result = activate_and_call(&mut registry,
        &mut engine,
        "prefixed-command",
        vec!["run".into_steelval().unwrap()],
    )
    .unwrap();

    assert_eq!(result.to_string(), "\"target:init:target:run\"");
}

#[test]
fn ready_artifact_command_bodies_can_apply_prefixed_builtin_function_values() {
    let mut registry = test_registry();
    let module = "lazy-test/precompiled-prefixed-builtin-value-caller.scm".to_string();
    let mut worker = Engine::new();
    register_prefixed_builtin(&mut worker);
    worker.register_steel_module(
        module.clone(),
        r#"
                (require-builtin lazy-test/prefixed-builtin as builtin.)
                (provide precompiled-prefixed-builtin-value-command)
                (define (call-action action)
                  (action))
                (define (precompiled-prefixed-builtin-value-command)
                  (call-action builtin.builtin-target))
            "#
        .into(),
    );
    let object = compile_modules(&mut worker, &[module.clone()]).unwrap();
    let mut foreground = Engine::new();
    register_prefixed_builtin(&mut foreground);
    registry.register_async_lazy_plugin(
        "precompiled-prefixed-builtin-value".into(),
        vec![module],
        Vec::new(),
        docs("precompiled-prefixed-builtin-value-command"),
    )
    .unwrap();
    set_ready_plugin(&mut registry, "precompiled-prefixed-builtin-value", object);

    assert_eq!(
        activate_and_call(&mut registry,
            &mut foreground,
            "precompiled-prefixed-builtin-value-command",
            Vec::new(),
        )
        .unwrap(),
        SteelVal::StringV("builtin-target".into())
    );
}

#[test]
fn ready_artifact_command_bodies_can_call_prefixed_builtins() {
    let mut registry = test_registry();
    let module = "lazy-test/precompiled-prefixed-builtin-caller.scm".to_string();
    let mut worker = Engine::new();
    register_prefixed_builtin(&mut worker);
    worker.register_steel_module(
        module.clone(),
        r#"
                (require-builtin lazy-test/prefixed-builtin as builtin.)
                (provide precompiled-prefixed-builtin-command)
                (define (precompiled-prefixed-builtin-command)
                  (builtin.builtin-target))
            "#
        .into(),
    );
    let object = compile_modules(&mut worker, &[module.clone()]).unwrap();
    let mut foreground = Engine::new();
    register_prefixed_builtin(&mut foreground);
    registry.register_async_lazy_plugin(
        "precompiled-prefixed-builtin".into(),
        vec![module],
        Vec::new(),
        docs("precompiled-prefixed-builtin-command"),
    )
    .unwrap();
    set_ready_plugin(&mut registry, "precompiled-prefixed-builtin", object);

    assert_eq!(
        activate_and_call(&mut registry,
            &mut foreground,
            "precompiled-prefixed-builtin-command",
            Vec::new(),
        )
        .unwrap(),
        SteelVal::StringV("builtin-target".into())
    );
}

#[test]
fn ready_artifact_loads_without_foreground_module_sources() {
    let mut registry = test_registry();
    let base = "lazy-test/source-free-base.scm".to_string();
    let command = "lazy-test/source-free-command.scm".to_string();
    let mut worker = Engine::new();
    worker.register_steel_module(
        base.clone(),
        "(provide source-free-base) (define source-free-base 40)".into(),
    );
    worker.register_steel_module(
        command.clone(),
        r#"
                (require "lazy-test/source-free-base.scm")
                (provide source-free-command)
                (define (source-free-command value) (+ source-free-base value))
            "#
        .into(),
    );
    let object = compile_modules(&mut worker, &[base.clone(), command.clone()]).unwrap();
    let mut foreground = Engine::new();
    registry.register_async_lazy_plugin(
        "source-free".into(),
        vec![base, command],
        Vec::new(),
        docs("source-free-command"),
    )
    .unwrap();
    set_ready_plugin(&mut registry, "source-free", object);

    assert_eq!(
        activate_and_call(&mut registry,
            &mut foreground,
            "source-free-command",
            vec![SteelVal::IntV(2)]
        )
        .unwrap(),
        SteelVal::IntV(42)
    );
}

#[test]
fn precompile_arguments_initializer_order_and_load_once() {
    let mut registry = test_registry();
    let mut engine = Engine::new();
    engine.register_steel_module(
        "lazy-test/order.scm".into(),
        r#"
                (provide lazy-order-command lazy-order-init!)
                (define lazy-order-state "")
                (define (lazy-order-init!)
                  (set! lazy-order-state (string-append lazy-order-state "init:")))
                (define (lazy-order-command arg)
                  (set! lazy-order-state (string-append lazy-order-state arg))
                  lazy-order-state)
            "#
        .into(),
    );
    registry.register_lazy_plugin(
        "order".into(),
        vec!["lazy-test/order.scm".into()],
        vec!["lazy-order-init!".into()],
        docs("lazy-order-command"),
    )
    .unwrap();

    let first = activate_and_call(&mut registry,
        &mut engine,
        "lazy-order-command",
        vec!["one".into_steelval().unwrap()],
    )
    .unwrap();
    let second = activate_and_call(&mut registry,
        &mut engine,
        "lazy-order-command",
        vec!["two".into_steelval().unwrap()],
    )
    .unwrap();
    assert_eq!(first.to_string(), "\"init:one\"");
    assert_eq!(second.to_string(), "\"init:onetwo\"");
}

#[test]
fn precompile_foreground_activation_failures_are_retained() {
    let mut registry = test_registry();
    let mut engine = Engine::new();
    registry.register_lazy_plugin(
        "retained".into(),
        vec!["lazy-test/retained.scm".into()],
        Vec::new(),
        docs("retained-command"),
    )
    .unwrap();
    let error = activate_and_call(&mut registry, &mut engine, "retained-command", Vec::new())
        .unwrap_err().message;
    assert!(registry.begin_activation("retained-command")
        .err().unwrap().message
        .contains(&error));
}

#[test]
fn precompile_global_collisions_and_stale_workers_fail_safely() {
    let mut registry = test_registry();
    registry.register_lazy_plugin(
        "collision".into(),
        vec!["collision.scm".into()],
        Vec::new(),
        docs("collision-command"),
    )
    .unwrap();
    let mut engine = Engine::new();
    engine.run("(define (collision-command) 10)").unwrap();
    registry.validate_global_collisions(&engine);
    assert!(registry.begin_activation("collision-command")
        .err().unwrap().message
        .contains("existing global"));

    registry.reset(2);
    registry.register_lazy_plugin(
        "stale".into(),
        vec!["stale.scm".into()],
        Vec::new(),
        docs("stale-command"),
    )
    .unwrap();
    precompile_one(&mut registry, 1, "stale", 99);
    assert!(matches!(
        *state_of(&mut registry, "stale"),
        ActivationState::Unloaded
    ));
}

#[test]
fn panicked_worker_only_falls_back_its_own_plugin() {
    let mut registry = test_registry();
    registry.register_async_lazy_plugin(
        "worker-panic".into(),
        vec!["lazy-test/worker-panic.scm".into()],
        Vec::new(),
        docs("worker-panic-command"),
    )
    .unwrap();
    *state_of(&mut registry, "worker-panic") = ActivationState::Precompiling { job_id: 10 };

    assert!(registry.publish_precompile_failure(1, "worker-panic", 10));

    assert!(matches!(
        *state_of(&mut registry, "worker-panic"),
        ActivationState::FallbackPending
    ));
    assert!(matches!(
        registry.begin_activation("worker-panic-command").unwrap().1,
        ActivationWork::Compile(_)
    ));
    registry.finish_activation("worker-panic", ActivationCompletion::Failed("remember me".into()));
}

#[test]
fn precompile_precompilation_does_not_evaluate_top_level_code() {
    let mut foreground = Engine::new();
    foreground.register_steel_module(
        "lazy-test/module.scm".into(),
        "(provide lazy-test-value) (define lazy-test-value 42)".into(),
    );
    let mut worker = Engine::new();
    worker.register_steel_module(
        "lazy-test/module.scm".into(),
        "(provide lazy-test-value) (define lazy-test-value 42)".into(),
    );
    compile_modules(&mut worker, &["lazy-test/module.scm".into()]).unwrap();
    assert!(!foreground.global_exists("lazy-test-value"));
    compile_and_run_modules(&mut foreground, &["lazy-test/module.scm".into()]).unwrap();
    assert!(foreground.global_exists("lazy-test-value"));
}

#[test]
fn precompile_precompile_failure_retries_during_foreground_activation() {
    let mut registry = test_registry();
    let mut engine = Engine::new();
    registry.register_async_lazy_plugin(
        "retry".into(),
        vec!["lazy-test/retry.scm".into()],
        Vec::new(),
        vec![
            ("retry-first".into(), "First retry command".into()),
            ("retry-second".into(), "Second retry command".into()),
        ],
    )
    .unwrap();
    *state_of(&mut registry, "retry") = ActivationState::Queued { job_id: 7 };

    precompile_one(&mut registry, 1, "retry", 7);
    assert!(matches!(
        *state_of(&mut registry, "retry"),
        ActivationState::FallbackPending
    ));

    engine.register_steel_module(
        "lazy-test/retry.scm".into(),
        r#"
                (provide retry-first retry-second)
                (define (retry-first) 10)
                (define (retry-second) 20)
            "#
        .into(),
    );
    assert_eq!(
        activate_and_call(&mut registry, &mut engine, "retry-first", Vec::new()).unwrap(),
        SteelVal::IntV(10)
    );
    assert_eq!(
        activate_and_call(&mut registry, &mut engine, "retry-second", Vec::new()).unwrap(),
        SteelVal::IntV(20)
    );
}

#[test]
fn precompile_queued_plugin_can_activate_before_precompilation_starts() {
    let mut registry = test_registry();
    let mut engine = Engine::new();
    engine.register_steel_module(
        "lazy-test/early.scm".into(),
        r#"
                (provide early-first early-second)
                (define (early-first value) value)
                (define (early-second) 2)
            "#
        .into(),
    );
    registry.register_async_lazy_plugin(
        "early".into(),
        vec!["lazy-test/early.scm".into()],
        Vec::new(),
        vec![
            ("early-first".into(), "First early command".into()),
            ("early-second".into(), "Second early command".into()),
        ],
    )
    .unwrap();
    *state_of(&mut registry, "early") = ActivationState::Queued { job_id: 8 };

    assert!(
        activate_and_call(&mut registry, &mut engine, "early-first", vec![SteelVal::IntV(17)])
            .unwrap_err().message
            .contains("invoke \"early-first\" again")
    );
    assert_eq!(
        activate_and_call(&mut registry, &mut engine, "early-first", vec![SteelVal::IntV(17)]).unwrap(),
        SteelVal::IntV(17)
    );
    assert_eq!(
        activate_and_call(&mut registry, &mut engine, "early-second", Vec::new()).unwrap(),
        SteelVal::IntV(2)
    );
    assert!(matches!(
        *state_of(&mut registry, "early"),
        ActivationState::Loaded
    ));
}

#[test]
fn ready_plugin_does_not_wait_for_unrelated_precompilation() {
    let mut registry = test_registry();
    let mut worker = Engine::new();
    worker.register_steel_module(
        "lazy-test/barrier.scm".into(),
        "(provide barrier-command) (define (barrier-command) 1)".into(),
    );
    let object = compile_modules(&mut worker, &["lazy-test/barrier.scm".into()]).unwrap();
    registry.register_async_lazy_plugin(
        "barrier".into(),
        vec!["lazy-test/barrier.scm".into()],
        Vec::new(),
        docs("barrier-command"),
    )
    .unwrap();
    registry.register_async_lazy_plugin(
        "unrelated".into(),
        vec!["lazy-test/unrelated.scm".into()],
        Vec::new(),
        docs("unrelated-command"),
    )
    .unwrap();
    *state_of(&mut registry, "barrier") = ActivationState::Ready(object);
    *state_of(&mut registry, "unrelated") = ActivationState::Precompiling { job_id: 9 };

    assert!(matches!(
        registry.begin_activation("barrier-command").unwrap().1,
        ActivationWork::Precompiled(_)
    ));
    registry.finish_activation("barrier", ActivationCompletion::Loaded);
}

#[test]
fn local_dependency_can_introduce_omitted_builtin() {
    let mut registry = test_registry();
    let mut engine = Engine::new();
    engine.register_steel_module(
        "lazy-test/local-eager.scm".into(),
        "(provide local-eager-value) (define local-eager-value 42)".into(),
    );
    registry.register_logical_plugin(
        "local-eager".into(),
        vec!["lazy-test/local-eager.scm".into()],
    )
    .unwrap();

    materialize_local_dependencies(&mut registry,
        &mut engine,
        "(local-plugin-dependencies '(local-eager))",
        "local.scm",
    )
    .unwrap();

    assert!(engine.global_exists("local-eager-value"));
    assert_eq!(
        registry.logical_plugin_strategy("local-eager").as_deref(),
        Some("eager")
    );
    assert!(registry.logical_plugin_materialized("local-eager"));
}

#[test]
fn local_dependency_can_materialize_registered_custom_plugin() {
    let mut registry = test_registry();
    let mut engine = Engine::new();
    engine.register_steel_module(
        "lazy-test/local-custom.scm".into(),
        "(provide local-custom-command) (define (local-custom-command) 9)".into(),
    );
    registry.register_lazy_plugin(
        "local-custom".into(),
        vec!["lazy-test/local-custom.scm".into()],
        Vec::new(),
        docs("local-custom-command"),
    )
    .unwrap();

    materialize_local_dependencies(&mut registry,
        &mut engine,
        "(local-plugin-dependencies '(local-custom))",
        "local.scm",
    )
    .unwrap();

    assert!(registry.logical_plugin_materialized("local-custom"));
    assert_eq!(
        activate_and_call(&mut registry, &mut engine, "local-custom-command", Vec::new()).unwrap(),
        SteelVal::IntV(9)
    );
}

#[test]
fn local_dependency_materializes_lazy_plugin_and_initializer_once() {
    let mut registry = test_registry();
    let mut engine = Engine::new();
    engine.register_steel_module(
        "lazy-test/local-lazy.scm".into(),
        r#"
            (provide local-lazy-command local-lazy-init!)
            (define local-lazy-state "cold")
            (define (local-lazy-init!) (set! local-lazy-state "ready"))
            (define (local-lazy-command) local-lazy-state)
        "#
        .into(),
    );
    registry.register_logical_plugin("local-lazy".into(), vec!["lazy-test/local-lazy.scm".into()]).unwrap();
    registry.register_plugin(
        "local-lazy".into(),
        "local-lazy/core".into(),
        vec!["lazy-test/local-lazy.scm".into()],
        vec!["local-lazy-init!".into()],
        docs("local-lazy-command"),
        RegistrationKind::Lazy,
    )
    .unwrap();

    materialize_local_dependencies(&mut registry,
        &mut engine,
        "(local-plugin-dependencies '(local-lazy))",
        "local.scm",
    )
    .unwrap();

    assert!(registry.logical_plugin_materialized("local-lazy"));
    assert_eq!(
        activate_and_call(&mut registry, &mut engine, "local-lazy-command", Vec::new()).unwrap(),
        SteelVal::StringV("ready".into())
    );
}

#[test]
fn local_dependency_preflights_all_ids_before_loading() {
    let mut registry = test_registry();
    let mut engine = Engine::new();
    engine.register_steel_module(
        "lazy-test/local-known.scm".into(),
        "(provide local-known-value) (define local-known-value 1)".into(),
    );
    registry.register_logical_plugin("known".into(), vec!["lazy-test/local-known.scm".into()]).unwrap();

    assert!(materialize_local_dependencies(&mut registry,
        &mut engine,
        "(local-plugin-dependencies '(known unknown))",
        "local.scm",
    )
    .is_err());
    assert!(!engine.global_exists("local-known-value"));
}

#[test]
fn local_dependency_supersedes_queued_precompile() {
    let mut registry = test_registry();
    let mut engine = Engine::new();
    engine.register_steel_module(
        "lazy-test/local-queued.scm".into(),
        "(provide local-queued-command) (define (local-queued-command) 11)".into(),
    );
    registry.register_async_lazy_plugin(
        "local-queued".into(),
        vec!["lazy-test/local-queued.scm".into()],
        Vec::new(),
        docs("local-queued-command"),
    )
    .unwrap();
    *state_of(&mut registry, "local-queued") = ActivationState::Queued { job_id: 7 };

    materialize_local_dependencies(&mut registry,
        &mut engine,
        "(local-plugin-dependencies '(local-queued))",
        "local.scm",
    )
    .unwrap();

    assert!(matches!(
        *state_of(&mut registry, "local-queued"),
        ActivationState::Loaded
    ));
}

#[test]
fn trusted_local_transitive_import_is_not_a_startup_collision() {
    let mut registry = test_registry();
    let mut engine = Engine::new();
    engine.register_steel_module(
        "lazy-test/local-transitive.scm".into(),
        "(provide local-transitive-command) (define (local-transitive-command) 7)".into(),
    );
    engine.register_steel_module(
        "lazy-test/local-root.scm".into(),
        "(require \"lazy-test/local-transitive.scm\") (provide local-root-value) (define local-root-value 1)"
            .into(),
    );
    registry.register_logical_plugin(
        "transitive".into(),
        vec!["lazy-test/local-transitive.scm".into()],
    )
    .unwrap();
    registry.register_plugin(
        "transitive".into(),
        "transitive/core".into(),
        vec!["lazy-test/local-transitive.scm".into()],
        Vec::new(),
        docs("local-transitive-command"),
        RegistrationKind::Lazy,
    )
    .unwrap();
    registry.register_logical_plugin("root".into(), vec!["lazy-test/local-root.scm".into()]).unwrap();

    materialize_local_dependencies(&mut registry,
        &mut engine,
        "(local-plugin-dependencies '(root))",
        "local.scm",
    )
    .unwrap();
    registry.validate_global_collisions(&engine);

    assert_eq!(
        activate_and_call(&mut registry, &mut engine, "local-transitive-command", Vec::new()).unwrap(),
        SteelVal::IntV(7)
    );
}

#[test]
fn ignores_nested_calls() {
    assert!(parse_local_dependencies(
        "(define (configure) (local-plugin-dependencies '(tasks)))",
        "local.scm",
    )
    .unwrap()
    .is_empty());
}

#[test]
fn parses_one_literal_top_level_declaration() {
    let path = "/workspace/.helix/local.scm";
    assert_eq!(
        parse_local_dependencies(
            "(local-plugin-dependencies '(tasks jobs))\n(define local-value 1)",
            path,
        )
        .unwrap(),
        ["tasks", "jobs"]
    );
    assert!(
        parse_local_dependencies("(local-plugin-dependencies (list 'tasks))", path).is_err()
    );
    assert!(
        parse_local_dependencies("(local-plugin-dependencies '(tasks tasks))", path).is_err()
    );
    assert!(parse_local_dependencies(
        "(local-plugin-dependencies '(tasks))\n(local-plugin-dependencies '(jobs))",
        path,
    )
    .is_err());
}

#[test]
fn lazy_plugins_arguments_initializer_order_and_load_once() {
    let mut registry = test_registry();
    let mut engine = Engine::new();
    engine.register_steel_module(
        "lazy-test/order.scm".into(),
        r#"
            (provide lazy-order-command lazy-order-init!)
            (define lazy-order-state "")
            (define (lazy-order-init!)
              (set! lazy-order-state (string-append lazy-order-state "init:")))
            (define (lazy-order-command arg)
              (set! lazy-order-state (string-append lazy-order-state arg))
              lazy-order-state)
        "#
        .into(),
    );
    registry.register_lazy_plugin(
        "order".into(),
        vec!["lazy-test/order.scm".into()],
        vec!["lazy-order-init!".into()],
        docs("lazy-order-command"),
    )
    .unwrap();

    let first = activate_and_call(&mut registry,
        &mut engine,
        "lazy-order-command",
        vec!["one".into_steelval().unwrap()],
    )
    .unwrap();
    let second = activate_and_call(&mut registry,
        &mut engine,
        "lazy-order-command",
        vec!["two".into_steelval().unwrap()],
    )
    .unwrap();
    assert_eq!(first.to_string(), "\"init:one\"");
    assert_eq!(second.to_string(), "\"init:onetwo\"");
}

#[test]
fn lazy_plugins_completion_and_docs_exist_before_loading() {
    let mut registry = test_registry();
    registry.register_lazy_plugin(
        "test".into(),
        vec!["test/module.scm".into()],
        vec!["test-init!".into()],
        docs("test-command"),
    )
    .unwrap();
    assert!(registry.recognizes("test-command"));
    assert_eq!(
        registry.documentation("test-command").as_deref(),
        Some("Documentation for test-command")
    );
    assert_eq!(registry.available_commands(), vec!["test-command"]);
}

#[test]
fn lazy_plugins_duplicate_plugin_command_and_builtin_collisions_are_rejected() {
    let mut registry = test_registry();
    registry.register_lazy_plugin(
        "one".into(),
        vec!["one.scm".into()],
        Vec::new(),
        docs("one-command"),
    )
    .unwrap();
    assert!(registry.register_lazy_plugin(
        "one".into(),
        vec!["two.scm".into()],
        Vec::new(),
        docs("two-command"),
    )
    .is_err());
    assert!(registry.register_lazy_plugin(
        "two".into(),
        vec!["two.scm".into()],
        Vec::new(),
        docs("one-command"),
    )
    .is_err());
    assert!(registry.register_lazy_plugin(
        "builtin".into(),
        vec!["builtin.scm".into()],
        Vec::new(),
        docs("quit"),
    )
    .is_err());
}

#[test]
fn lazy_plugins_foreground_activation_failures_are_retained() {
    let mut registry = test_registry();
    let mut engine = Engine::new();
    registry.register_lazy_plugin(
        "retained".into(),
        vec!["lazy-test/retained.scm".into()],
        Vec::new(),
        docs("retained-command"),
    )
    .unwrap();
    let error = activate_and_call(&mut registry, &mut engine, "retained-command", Vec::new())
        .unwrap_err().message;
    assert!(registry.begin_activation("retained-command")
        .err().unwrap().message
        .contains(&error));
}

#[test]
fn lazy_plugins_global_collisions_and_stale_workers_fail_safely() {
    let mut registry = test_registry();
    registry.register_lazy_plugin(
        "collision".into(),
        vec!["collision.scm".into()],
        Vec::new(),
        docs("collision-command"),
    )
    .unwrap();
    let mut engine = Engine::new();
    engine.run("(define (collision-command) 10)").unwrap();
    registry.validate_global_collisions(&engine);
    assert!(registry.begin_activation("collision-command")
        .err().unwrap().message
        .contains("existing global"));

    registry.reset(2);
    registry.register_lazy_plugin(
        "stale".into(),
        vec!["stale.scm".into()],
        Vec::new(),
        docs("stale-command"),
    )
    .unwrap();
    precompile_one(&mut registry, 1, "stale", 99);
    assert!(matches!(
        *state_of(&mut registry, "stale"),
        ActivationState::Unloaded
    ));
}

#[test]
fn lazy_plugins_precompilation_does_not_evaluate_top_level_code() {
    let mut foreground = Engine::new();
    foreground.register_steel_module(
        "lazy-test/module.scm".into(),
        "(provide lazy-test-value) (define lazy-test-value 42)".into(),
    );
    let mut worker = Engine::new();
    worker.register_steel_module(
        "lazy-test/module.scm".into(),
        "(provide lazy-test-value) (define lazy-test-value 42)".into(),
    );
    compile_modules(&mut worker, &["lazy-test/module.scm".into()]).unwrap();
    assert!(!foreground.global_exists("lazy-test-value"));
    compile_and_run_modules(&mut foreground, &["lazy-test/module.scm".into()]).unwrap();
    assert!(foreground.global_exists("lazy-test-value"));
}

#[test]
fn lazy_plugins_recursive_activation_and_failures_are_retained_until_reset() {
    let mut registry = test_registry();
    registry.register_lazy_plugin(
        "test".into(),
        vec!["test.scm".into()],
        Vec::new(),
        docs("test-command"),
    )
    .unwrap();
    let (plugin, _) = registry.begin_activation("test-command").unwrap();
    assert!(registry.begin_activation("test-command")
        .err().unwrap().message
        .contains("recursive activation"));
        registry.finish_activation(&plugin, ActivationCompletion::Failed("remember me".into()));
    assert!(registry.begin_activation("test-command")
        .err().unwrap().message
        .contains("remember me"));
    registry.reset(2);
    assert!(!registry.recognizes("test-command"));
}

const INIT_FAIL: &str = r#"
                (provide init-fail-command init-fail-init!)
                (define (init-fail-init!) (error "initializer failed"))
                (define (init-fail-command) 1)
            "#;

fn run_init_fail_modules(engine: &mut Engine, _object: RawProgramWithSymbols) -> Result<(), ArtifactLoadError> {
    engine.register_steel_module("lazy-test/init-fail.scm".into(), INIT_FAIL.into());
    compile_and_run_modules(engine, &["lazy-test/init-fail.scm".into()]).map_err(ArtifactLoadError::Execution)
}

#[test]
fn initializer_failures_are_retained() {
    let mut registry = test_registry();
    let mut worker = Engine::new();
    worker.register_steel_module("lazy-test/init-fail.scm".into(), INIT_FAIL.into());
    let object = compile_modules(&mut worker, &["lazy-test/init-fail.scm".into()]).unwrap();
    let mut foreground = Engine::new();
    registry.register_async_lazy_plugin(
        "init-fail".into(),
        vec!["lazy-test/init-fail.scm".into()],
        vec!["init-fail-init!".into()],
        docs("init-fail-command"),
    )
    .unwrap();
    set_ready_plugin(&mut registry, "init-fail", object);

    let error = call_with_loader(&mut registry, &mut foreground, "init-fail-command", Vec::new(), run_init_fail_modules)
        .unwrap_err()
        .message;
    assert!(error.contains("initializer failed"));
    assert!(registry.begin_activation("init-fail-command")
        .err().unwrap().message
        .contains("initializer failed"));
}

fn refuse(_engine: &mut Engine, _object: RawProgramWithSymbols) -> Result<(), ArtifactLoadError> {
    Err(ArtifactLoadError::Safe("other engine".into()))
}

#[test]
fn a_program_that_cannot_be_loaded_is_compiled_at_the_next_call() {
    let mut registry = test_registry();
    let source = "(provide again-command) (define (again-command) 7)";
    let mut worker = Engine::new();
    worker.register_steel_module("lazy-test/again.scm".into(), source.into());
    let object = compile_modules(&mut worker, &["lazy-test/again.scm".into()]).unwrap();
    let mut foreground = Engine::new();
    foreground.register_steel_module("lazy-test/again.scm".into(), source.into());
    registry
        .register_async_lazy_plugin("again".into(), vec!["lazy-test/again.scm".into()], Vec::new(), docs("again-command"))
        .unwrap();
    set_ready_plugin(&mut registry, "again", object);

    let error = call_with_loader(&mut registry, &mut foreground, "again-command", Vec::new(), refuse).unwrap_err();
    assert_eq!(
        error.message,
        "unable to load precompiled lazy plugin \"again\": other engine; invoke \"again-command\" again to load it normally"
    );
    let value = call_with_loader(&mut registry, &mut foreground, "again-command", Vec::new(), refuse).unwrap();
    assert_eq!(value, SteelVal::IntV(7));
}

#[test]
fn an_unknown_command_is_not_activated() {
    let mut registry = test_registry();
    let mut engine = Engine::new();
    let error = activate_and_call(&mut registry, &mut engine, "missing", Vec::new()).unwrap_err();
    assert_eq!(error.message, "lazy command \"missing\" disappeared during engine reload");
}

#[test]
fn typed_commands_wait_for_validation() {
    let mut registry = test_registry();
    registry.register_lazy_plugin("typed".into(), vec!["typed.scm".into()], Vec::new(), docs("typed-command")).unwrap();
    assert_eq!(registry.call_typed_command("missing", true), TypedCommand::Unknown);
    assert_eq!(registry.call_typed_command("typed-command", false), TypedCommand::Pending);
    assert_eq!(registry.call_typed_command("typed-command", true), TypedCommand::Invoke);
}

#[test]
fn logical_plugins_are_eager_or_lazy() {
    let mut registry = test_registry();
    registry.register_logical_plugin("catalog".into(), vec!["catalog.scm".into()]).unwrap();
    assert!(registry.logical_plugin_registered_ids().is_empty());
    registry.mark_logical_plugin_eager("catalog".into()).unwrap();
    assert!(registry.mark_logical_plugin_eager("missing".into()).is_err());
    registry
        .register_logical_lazy_plugin("outline".into(), "outline-ui".into(), vec!["o.scm".into()], Vec::new(), docs("outline"))
        .unwrap();
    assert_eq!(registry.logical_plugin_registered_ids(), vec!["catalog", "outline"]);
    assert_eq!(registry.logical_plugin_strategy("catalog").as_deref(), Some("eager"));
    assert_eq!(registry.logical_plugin_strategy("outline").as_deref(), Some("lazy"));
    assert!(registry.logical_plugin_materialized("catalog"));
    assert!(!registry.logical_plugin_materialized("outline"));
    let symbol = |name: &str| ScriptValue::Symbol(name.to_string());
    assert!(registry.verify_local_plugin_dependencies(&vec![symbol("catalog")]).is_ok());
    assert_eq!(
        registry.verify_local_plugin_dependencies(&vec![symbol("outline")]).unwrap_err().message,
        "local plugin dependency \"outline\" was not materialized before evaluation"
    );
    assert!(registry.verify_local_plugin_dependencies(&vec![ScriptValue::Text("catalog".into())]).is_err());
    assert!(registry.verify_local_plugin_dependencies(&vec![symbol("catalog"), symbol("catalog")]).is_err());
}

#[test]
fn the_end_of_initialization_queues_plugins_and_fails_collisions() {
    let mut registry = test_registry();
    let engine = Engine::new();
    registry
        .register_async_lazy_plugin("queued".into(), vec!["q.scm".into()], Vec::new(), docs("queued-command"))
        .unwrap();
    registry.register_lazy_plugin("clash".into(), vec!["c.scm".into()], Vec::new(), docs("map")).unwrap();
    assert!(registry.finish_initialization(&engine, 99).is_empty());
    let jobs = registry.finish_initialization(&engine, 1);
    assert_eq!(jobs.len(), 1);
    assert_eq!(jobs[0].0, "queued");
    assert!(matches!(state_of(&mut registry, "queued"), ActivationState::Queued { job_id } if *job_id == jobs[0].1));
    assert_eq!(
        registry.begin_activation("map").err().unwrap().message,
        "lazy command \"map\" collides with an existing global"
    );
}

#[test]
fn an_activation_goes_in_steps() {
    let mut registry = test_registry();
    registry
        .register_lazy_plugin("steps".into(), vec!["s.scm".into()], vec!["steps-init!".into()], docs("steps-command"))
        .unwrap();
    let (plugin, work) = registry.begin_activation("steps-command").unwrap();
    assert!(matches!(work, ActivationWork::Compile(modules) if modules == vec!["s.scm".to_string()]));
    assert_eq!(
        registry.begin_activation("steps-command").err().unwrap().message,
        "recursive activation of lazy plugin \"steps\""
    );
    assert_eq!(registry.modules_done(&plugin, Ok(())).unwrap(), vec!["steps-init!".to_string()]);
    registry.initializers_done(&plugin, Ok(())).unwrap();
    assert!(matches!(registry.begin_activation("steps-command").unwrap().1, ActivationWork::Call));
    assert_eq!(
        registry.modules_done("gone", Ok(())).unwrap_err().message,
        "lazy plugin \"gone\" disappeared during engine reload"
    );
}

#[test]
fn commands_are_listed_in_order() {
    let mut registry = test_registry();
    let commands = vec![
        ("zeta".to_string(), "Z".to_string()),
        ("alpha".to_string(), "A".to_string()),
        ("alpha-2".to_string(), "B".to_string()),
    ];
    registry.register_lazy_plugin("many".into(), vec!["m.scm".into()], Vec::new(), commands).unwrap();
    assert_eq!(registry.available_commands(), vec!["alpha", "alpha-2", "zeta"]);
}

fn failed(message: &str) -> LazyError {
    LazyError { message: message.to_string() }
}

#[test]
fn initializers_are_called_one_after_the_other() {
    let mut registry = test_registry();
    let initializers = vec!["first!".to_string(), "second!".to_string()];
    registry
        .register_lazy_plugin("ordered".into(), vec!["a.scm".into(), "b.scm".into()], initializers, docs("ordered-command"))
        .unwrap();
    let Activation::Run { program, running } = registry.activate_and_call("ordered-command") else { panic!() };
    assert_eq!(program, "(require \"a.scm\")\n(require \"b.scm\")\n");
    assert!(matches!(
        registry.activate_and_call("ordered-command"),
        Activation::Failed(error) if error.message == "recursive activation of lazy plugin \"ordered\""
    ));
    let Activation::Initialize { function, initializing } = registry.modules_ran(running, Ok(())) else { panic!() };
    assert_eq!(function, "first!");
    let Activation::Initialize { function, initializing } = registry.initializer_called(initializing, Ok(())) else {
        panic!()
    };
    assert_eq!(function, "second!");
    assert!(matches!(state_of(&mut registry, "ordered"), ActivationState::Activating));
    assert!(matches!(registry.initializer_called(initializing, Ok(())), Activation::Ready));
    assert!(matches!(state_of(&mut registry, "ordered"), ActivationState::Loaded));
    assert!(matches!(registry.activate_and_call("ordered-command"), Activation::Ready));
}

#[test]
fn a_failed_step_fails_the_plugin() {
    let mut registry = test_registry();
    for name in ["modules", "initializer"] {
        registry
            .register_lazy_plugin(name.into(), vec!["m.scm".into()], vec!["init!".into()], docs(&format!("{name}-command")))
            .unwrap();
    }
    let Activation::Run { running, .. } = registry.activate_and_call("modules-command") else { panic!() };
    let step = registry.modules_ran(running, Err(failed("no such file")));
    assert!(matches!(step, Activation::Failed(error) if error.message == "no such file"));
    let step = registry.activate_and_call("modules-command");
    assert!(matches!(step, Activation::Failed(error) if error.message == "no such file"));

    let Activation::Run { running, .. } = registry.activate_and_call("initializer-command") else { panic!() };
    let Activation::Initialize { initializing, .. } = registry.modules_ran(running, Ok(())) else { panic!() };
    let step = registry.initializer_called(initializing, Err(failed("no init")));
    assert!(matches!(step, Activation::Failed(error) if error.message == "no init"));
    let step = registry.activate_and_call("initializer-command");
    assert!(matches!(step, Activation::Failed(error) if error.message == "no init"));
}

#[test]
fn a_plugin_that_is_gone_is_not_initialized() {
    let mut registry = test_registry();
    registry.register_lazy_plugin("gone".into(), vec!["g.scm".into()], Vec::new(), docs("gone-command")).unwrap();
    let Activation::Run { running, .. } = registry.activate_and_call("gone-command") else { panic!() };
    registry.reset(2);
    assert!(matches!(
        registry.modules_ran(running, Ok(())),
        Activation::Failed(error) if error.message == "lazy plugin \"gone\" disappeared during engine reload"
    ));
}

fn ids(names: &[&str]) -> Vec<String> {
    names.iter().map(|name| name.to_string()).collect()
}

#[test]
fn dependencies_are_loaded_one_after_the_other() {
    let mut registry = test_registry();
    for manifest in ["one", "two"] {
        registry
            .register_logical_lazy_plugin(
                "parts".into(),
                manifest.into(),
                vec![format!("{manifest}.scm")],
                vec![format!("{manifest}!")],
                docs(&format!("{manifest}-command")),
            )
            .unwrap();
    }
    let step = registry.materialize_dependencies(ids(&["parts", "unknown"]), Vec::new());
    assert!(matches!(
        step,
        Materialize::Failed(error) if error.message
            == "unknown local plugin dependency \"unknown\"; load plugins/lazy-plugins.scm in the global configuration"
    ));
    assert!(matches!(state_of(&mut registry, "one"), ActivationState::Unloaded));
    assert!(matches!(registry.materialize_dependencies(Vec::new(), Vec::new()), Materialize::Nothing));

    let mut step = registry.materialize_dependencies(ids(&["parts"]), ids(&["bound"]));
    let mut done = Vec::new();
    loop {
        step = match step {
            Materialize::Run { program, next } => {
                done.push(program);
                // A script may register plugins while it runs.
                let name = format!("extra-{}", done.len());
                registry
                    .register_lazy_plugin(name.clone(), vec!["x.scm".into()], Vec::new(), docs(&format!("{name}-command")))
                    .unwrap();
                registry.materialize_step(next, Ok(()))
            },
            Materialize::Initialize { function, next } => {
                done.push(function);
                registry.materialize_step(next, Ok(()))
            },
            Materialize::Done { before } => {
                assert_eq!(before, ids(&["bound"]));
                break;
            },
            Materialize::Nothing | Materialize::Failed(_) => panic!(),
        };
    }
    assert_eq!(done, ids(&["(require \"one.scm\")\n", "one!", "(require \"two.scm\")\n", "two!"]));
    assert!(registry.logical_plugin_materialized("parts"));
    assert!(registry.recognizes("extra-3-command"));
    assert!(matches!(registry.materialize_dependencies(ids(&["parts"]), Vec::new()), Materialize::Done { .. }));
}

#[test]
fn a_dependency_that_fails_ends_the_materialization() {
    let mut registry = test_registry();
    registry.register_lazy_plugin("bad".into(), vec!["bad.scm".into()], Vec::new(), docs("bad-command")).unwrap();
    registry.register_lazy_plugin("good".into(), vec!["good.scm".into()], Vec::new(), docs("good-command")).unwrap();
    let step = registry.materialize_dependencies(ids(&["bad", "good"]), Vec::new());
    let Materialize::Run { program, next } = step else { panic!() };
    assert_eq!(program, "(require \"bad.scm\")\n");
    let step = registry.materialize_step(next, Err(failed("broken")));
    assert!(matches!(step, Materialize::Failed(error) if error.message == "broken"));
    assert!(matches!(state_of(&mut registry, "good"), ActivationState::Unloaded));
    assert!(!registry.logical_plugin_materialized("bad"));
}
