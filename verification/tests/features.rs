use perry_freshness::bindings::binding_needs_shared_tokio;
use perry_freshness::cache_key::auto_optimized_cache_key;
use perry_freshness::context::{
    bitcode_link_requested, effective_size_panic_immediate_abort, gc_trace_requested,
    needs_http2_constants, size_lto_fat, size_opt_level, size_panic_immediate_abort, BuildEnv,
    CodegenSites, CompilationContext,
};
use perry_freshness::cross_features::auto_optimized_cross_features;
use perry_freshness::name_set::NameSet;
use perry_freshness::stamp::auto_optimized_build_stamp;

fn plain_context() -> CompilationContext {
    CompilationContext {
        native_module_imports: NameSet::new(),
        uses_get_builtin_module: false,
        needs_wasm_runtime: false,
        uses_regex: false,
        uses_temporal: false,
        uses_event_emitter: false,
        uses_url: false,
        uses_string_normalize: false,
        uses_intl_segmenter: false,
        uses_intl_locale: false,
        uses_intl_datetime: false,
        uses_intl_namespace: false,
        uses_global_math: false,
        uses_global_json: false,
        uses_global_reflect: false,
        uses_global_atomics: false,
        uses_global_url: false,
        uses_global_text: false,
        uses_global_websocket: false,
        uses_global_webcrypto: false,
        uses_global_webfetch: false,
        uses_proc_ipc: false,
        uses_diagnostics: false,
        uses_dgram: false,
        uses_fetch: false,
    }
}

fn no_sites() -> CodegenSites {
    CodegenSites { deferred_dynamic_code: false, known_codegen: false }
}

fn no_env() -> BuildEnv {
    BuildEnv { size_opt: None, size_lto: None, size_panic: None, gc_trace: None, bitcode_link: None }
}

fn names(items: &[&str]) -> NameSet {
    let mut set = NameSet::new();
    for item in items {
        set.insert(item);
    }
    set
}

fn strings(items: &[&str]) -> Vec<String> {
    items.iter().map(|s| s.to_string()).collect()
}

fn requests(ctx: &CompilationContext, sites: &CodegenSites, env: &BuildEnv) -> Vec<String> {
    auto_optimized_cross_features(ctx, &NameSet::new(), &[], sites, env)
}

#[test]
fn plain_program_requests_full_and_the_allocator() {
    assert_eq!(
        requests(&plain_context(), &no_sites(), &no_env()),
        strings(&["perry-runtime/full", "perry-runtime/alloc-mimalloc"])
    );
}

#[test]
fn stdlib_features_come_in_order_and_cli_features_are_sifted() {
    let features = names(&["web-fetch", "http", "crypto", "http"]);
    let cli = strings(&["ohos-napi", "nonsense", "ios-game-loop", "watchos-game-loop"]);
    assert_eq!(
        auto_optimized_cross_features(&plain_context(), &features, &cli, &no_sites(), &no_env()),
        strings(&[
            "perry-runtime/full",
            "perry-stdlib/crypto",
            "perry-stdlib/http",
            "perry-stdlib/web-fetch",
            "perry-runtime/ohos-napi",
            "perry-runtime/ios-game-loop",
            "perry-runtime/watchos-game-loop",
            "perry-runtime/alloc-mimalloc",
        ])
    );
}

#[test]
fn every_gate_requests_its_feature_in_order() {
    let mut ctx = plain_context();
    ctx.native_module_imports.insert("http2");
    ctx.needs_wasm_runtime = true;
    ctx.uses_regex = true;
    ctx.uses_temporal = true;
    ctx.uses_event_emitter = true;
    ctx.uses_url = true;
    ctx.uses_string_normalize = true;
    ctx.uses_intl_segmenter = true;
    ctx.uses_intl_locale = true;
    ctx.uses_intl_datetime = true;
    ctx.uses_intl_namespace = true;
    ctx.uses_global_math = true;
    ctx.uses_global_json = true;
    ctx.uses_global_reflect = true;
    ctx.uses_global_atomics = true;
    ctx.uses_global_url = true;
    ctx.uses_global_text = true;
    ctx.uses_global_websocket = true;
    ctx.uses_global_webcrypto = true;
    ctx.uses_global_webfetch = true;
    ctx.uses_proc_ipc = true;
    ctx.uses_diagnostics = true;
    ctx.uses_dgram = true;
    ctx.uses_fetch = true;
    let sites = CodegenSites { deferred_dynamic_code: true, known_codegen: true };
    let mut env = no_env();
    env.bitcode_link = Some("1".to_string());
    assert_eq!(
        requests(&ctx, &sites, &env),
        strings(&[
            "perry-runtime/full",
            "perry-runtime/wasm-host",
            "perry-runtime/regex-engine",
            "perry-runtime/temporal",
            "perry-runtime/url-engine",
            "perry-runtime/string-normalize",
            "perry-runtime/intl-segmenter",
            "perry-runtime/intl-namespace",
            "perry-runtime/global-math",
            "perry-runtime/global-json",
            "perry-runtime/global-reflect",
            "perry-runtime/global-atomics",
            "perry-runtime/global-url",
            "perry-runtime/global-text",
            "perry-runtime/global-websocket",
            "perry-runtime/global-webcrypto",
            "perry-runtime/global-webfetch",
            "perry-runtime/proc-ipc",
            "perry-runtime/intl-locale",
            "perry-runtime/intl-datetime",
            "perry-runtime/diagnostics",
            "perry-runtime/mod-dgram",
            "perry-runtime/mod-http2-constants",
            "perry-runtime/dyn-eval",
            "perry-runtime/alloc-mimalloc",
            "perry-runtime/keepalive-anchors",
            "perry-runtime/external-fetch-symbols",
        ])
    );
}

#[test]
fn deferred_dynamic_code_forces_namespaces_interpreter_and_regex() {
    let sites = CodegenSites { deferred_dynamic_code: true, known_codegen: false };
    assert_eq!(
        requests(&plain_context(), &sites, &no_env()),
        strings(&[
            "perry-runtime/full",
            "perry-runtime/intl-namespace",
            "perry-runtime/global-math",
            "perry-runtime/global-json",
            "perry-runtime/global-reflect",
            "perry-runtime/global-atomics",
            "perry-runtime/global-url",
            "perry-runtime/global-text",
            "perry-runtime/global-websocket",
            "perry-runtime/global-webcrypto",
            "perry-runtime/global-webfetch",
            "perry-runtime/proc-ipc",
            "perry-runtime/dyn-eval",
            "perry-runtime/regex-engine",
            "perry-runtime/alloc-mimalloc",
        ])
    );
}

#[test]
fn no_request_is_made_twice() {
    let mut ctx = plain_context();
    for uses_regex in [false, true] {
        ctx.uses_regex = uses_regex;
        let sites = CodegenSites { deferred_dynamic_code: true, known_codegen: true };
        let all = requests(&ctx, &sites, &no_env());
        let mut once = all.clone();
        once.sort();
        once.dedup();
        assert_eq!(once.len(), all.len());
        assert_eq!(all[0], "perry-runtime/full");
    }
}

#[test]
fn known_code_generators_get_the_interpreter_but_no_namespaces() {
    let sites = CodegenSites { deferred_dynamic_code: false, known_codegen: true };
    assert_eq!(
        requests(&plain_context(), &sites, &no_env()),
        strings(&[
            "perry-runtime/full",
            "perry-runtime/dyn-eval",
            "perry-runtime/regex-engine",
            "perry-runtime/alloc-mimalloc",
        ])
    );
}

#[test]
fn gc_trace_asks_for_diagnostics_in_any_case() {
    for (value, wanted) in
        [("1", true), ("true", true), ("TrUe", true), ("TRUE", true), ("", false), ("0", false), ("yes", false), ("true ", false), ("trué", false)]
    {
        let mut env = no_env();
        env.gc_trace = Some(value.to_string());
        assert_eq!(gc_trace_requested(&env), wanted, "{value}");
        let asked = requests(&plain_context(), &no_sites(), &env)
            .contains(&"perry-runtime/diagnostics".to_string());
        assert_eq!(asked, wanted);
    }
    assert!(!gc_trace_requested(&no_env()));
}

#[test]
fn http2_constants_are_kept_for_imports_and_dynamic_resolution() {
    let mut ctx = plain_context();
    assert!(!needs_http2_constants(&ctx));
    ctx.native_module_imports.insert("http");
    assert!(!needs_http2_constants(&ctx));
    ctx.native_module_imports.insert("http2");
    assert!(needs_http2_constants(&ctx));
    let mut other = plain_context();
    other.uses_get_builtin_module = true;
    assert!(needs_http2_constants(&other));
}

#[test]
fn size_settings_follow_the_environment() {
    let mut env = no_env();
    assert_eq!(size_opt_level(&env), None);
    env.size_panic = Some("abort-immediate".to_string());
    assert!(!size_panic_immediate_abort(&env));
    env.size_opt = Some("z".to_string());
    assert_eq!(size_opt_level(&env), Some("z"));
    assert!(size_panic_immediate_abort(&env));
    assert!(effective_size_panic_immediate_abort(true, &env));
    assert!(!effective_size_panic_immediate_abort(false, &env));
    env.size_opt = Some("s".to_string());
    assert_eq!(size_opt_level(&env), Some("s"));
    env.size_opt = Some("3".to_string());
    assert_eq!(size_opt_level(&env), None);
    env.size_opt = Some("Z".to_string());
    assert_eq!(size_opt_level(&env), None);
    env.size_panic = Some("abort".to_string());
    env.size_opt = Some("z".to_string());
    assert!(!size_panic_immediate_abort(&env));
    assert!(!size_lto_fat(&env));
    env.size_lto = Some("fat".to_string());
    assert!(size_lto_fat(&env));
    env.size_lto = Some("thin".to_string());
    assert!(!size_lto_fat(&env));
    assert!(!bitcode_link_requested(&env));
    env.bitcode_link = Some("1".to_string());
    assert!(bitcode_link_requested(&env));
    env.bitcode_link = Some("true".to_string());
    assert!(!bitcode_link_requested(&env));
}

#[test]
fn cache_key_of_a_plain_build() {
    let key = auto_optimized_cache_key(
        "web-fetch",
        true,
        false,
        None,
        &plain_context(),
        &no_sites(),
        &no_env(),
        "0.5.1265",
    );
    assert_eq!(
        key,
        "web-fetch|true|host|wasm=false|regex=false|temporal=false|ee=false|url=false|norm=false|seg=false|loc=false|intlns=false|gns=falsefalsefalsefalsefalsefalsefalsefalsefalsefalse|diag=false|dgram=false|http2=false|dyneval=false|knowngen=false|sizeopt=off|anchors=false|v=0.5.1265"
    );
}

#[test]
fn cache_key_writes_every_gate() {
    let mut ctx = plain_context();
    ctx.uses_get_builtin_module = true;
    ctx.uses_temporal = true;
    ctx.uses_event_emitter = true;
    ctx.uses_global_json = true;
    ctx.uses_proc_ipc = true;
    ctx.uses_dgram = true;
    let sites = CodegenSites { deferred_dynamic_code: false, known_codegen: true };
    let mut env = no_env();
    env.size_opt = Some("s".to_string());
    env.size_lto = Some("fat".to_string());
    env.bitcode_link = Some("1".to_string());
    let key = auto_optimized_cache_key("", false, true, Some("ios"), &ctx, &sites, &env, "1");
    assert_eq!(
        key,
        "|false|ios|wasm=false|regex=false|temporal=true|ee=true|url=false|norm=false|seg=false|loc=false|intlns=false|gns=falsetruefalsefalsefalsefalsefalsefalsefalsetrue|diag=false|dgram=true|http2=true|dyneval=false|knowngen=true|sizeopt=s+fatlto+panicimm|anchors=true|v=1"
    );
}

#[test]
fn cache_key_marks_dates_fetch_and_trace() {
    let mut ctx = plain_context();
    ctx.uses_intl_datetime = true;
    ctx.uses_fetch = true;
    let mut env = no_env();
    env.gc_trace = Some("1".to_string());
    let key = auto_optimized_cache_key("", true, false, None, &ctx, &no_sites(), &env, "1");
    assert_eq!(
        key,
        "|true|host|wasm=false|regex=false|temporal=false|ee=false|url=false|norm=false|seg=false|loc=false|intlns=false+datetime+fetch|gns=falsefalsefalsefalsefalsefalsefalsefalsefalsefalse|diag=false+gctrace|dgram=false|http2=false|dyneval=false|knowngen=false|sizeopt=off|anchors=false|v=1"
    );
}

#[test]
fn trace_makes_no_other_key_where_diagnostics_are_used() {
    let mut trace = no_env();
    trace.gc_trace = Some("1".to_string());
    let mut ctx = plain_context();
    for uses_diagnostics in [false, true] {
        ctx.uses_diagnostics = uses_diagnostics;
        let key = |env: &BuildEnv| {
            auto_optimized_cache_key("f", true, false, None, &ctx, &no_sites(), env, "1")
        };
        assert_eq!(key(&trace) == key(&no_env()), uses_diagnostics);
        assert_eq!(
            requests(&ctx, &no_sites(), &trace) == requests(&ctx, &no_sites(), &no_env()),
            uses_diagnostics
        );
    }
}

#[test]
fn every_gate_that_adds_a_feature_has_its_own_key() {
    let key = |ctx: &CompilationContext, env: &BuildEnv| {
        auto_optimized_cache_key("f", true, false, None, ctx, &no_sites(), env, "1")
    };
    let plain = key(&plain_context(), &no_env());
    let mut dates = plain_context();
    dates.uses_intl_datetime = true;
    let mut fetch = plain_context();
    fetch.uses_fetch = true;
    let mut trace = no_env();
    trace.gc_trace = Some("true".to_string());
    let keys = [
        plain,
        key(&dates, &no_env()),
        key(&fetch, &no_env()),
        key(&plain_context(), &trace),
    ];
    for (i, a) in keys.iter().enumerate() {
        for b in &keys[i + 1..] {
            assert_ne!(a, b);
        }
    }
}

#[test]
fn cache_keys_of_different_builds_differ() {
    let base = auto_optimized_cache_key(
        "f", true, false, None, &plain_context(), &no_sites(), &no_env(), "1",
    );
    let mut ctx = plain_context();
    ctx.uses_global_math = true;
    assert_ne!(
        base,
        auto_optimized_cache_key("f", true, false, None, &ctx, &no_sites(), &no_env(), "1")
    );
    assert_ne!(
        base,
        auto_optimized_cache_key("f", true, true, None, &plain_context(), &no_sites(), &no_env(), "1")
    );
    assert_eq!(
        base,
        auto_optimized_cache_key("f", true, false, Some("host"), &plain_context(), &no_sites(), &no_env(), "1")
    );
}

#[test]
fn build_stamp_line_by_line() {
    let bindings = vec![
        ("perry-ext-http".to_string(), "perry_ext_http".to_string(), Some("http".to_string())),
        ("perry-ext-ws".to_string(), "perry_ext_ws".to_string(), None),
    ];
    let stamp = auto_optimized_build_stamp(
        "k|1",
        Some("ios"),
        Some("aarch64-apple-ios"),
        &strings(&["perry-runtime/full", "perry-stdlib/http"]),
        &bindings,
        "00ff",
    );
    assert_eq!(
        stamp,
        "perry-auto-optimized-v2\nkey=k|1\ntarget=ios\ntriple=aarch64-apple-ios\nfeatures=perry-runtime/full,perry-stdlib/http\ntokio=perry-ext-http:perry_ext_http:http,perry-ext-ws:perry_ext_ws:\nsrcs=00ff\n"
    );
}

#[test]
fn build_stamp_of_a_host_build_without_bindings() {
    let stamp = auto_optimized_build_stamp("", None, None, &[], &[], "");
    assert_eq!(
        stamp,
        "perry-auto-optimized-v2\nkey=\ntarget=host\ntriple=host\nfeatures=\ntokio=\nsrcs=\n"
    );
}

#[test]
fn stamps_of_different_sources_differ() {
    let a = auto_optimized_build_stamp("k", None, None, &[], &[], "00");
    let b = auto_optimized_build_stamp("k", None, None, &[], &[], "01");
    assert_ne!(a, b);
}

#[test]
fn modules_that_share_tokio() {
    for module in [
        "net", "ws", "http", "https", "http2", "axios", "node-fetch", "fetch", "undici",
        "fastify", "mongodb", "pg", "mysql2", "mysql2/promise", "ioredis", "redis", "nodemailer",
    ] {
        assert!(binding_needs_shared_tokio(module), "{module}");
    }
    for module in ["", "bcrypt", "argon2", "sharp", "HTTP", "http3", "mysql", "net "] {
        assert!(!binding_needs_shared_tokio(module), "{module}");
    }
}
