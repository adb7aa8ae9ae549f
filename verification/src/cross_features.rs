//! The cross-crate feature requests of an auto-optimize build.
use crate::context;
use crate::context::{
    bitcode_link_requested, gc_trace_requested, needs_http2_constants, BuildEnv, CodegenSites,
    CompilationContext,
};
use crate::name_set;
use crate::name_set::NameSet;
use crate::text;
use crate::text::str_eq;
use vstd::prelude::*;

verus! {

/// `feature` where it is wanted, and nothing otherwise.
pub open spec fn request_if(wanted: bool, feature: Seq<char>) -> Seq<Seq<char>> {
    if wanted {
        seq![feature]
    } else {
        Seq::empty()
    }
}

/// Whether a feature of the command line targets the runtime.
pub open spec fn targets_runtime(feature: Seq<char>) -> bool {
    feature == "ios-game-loop"@ || feature == "watchos-game-loop"@ || feature == "ohos-napi"@
}

/// The requests that the command line adds, in its order.
pub open spec fn cli_requests(cli_features: Seq<Seq<char>>) -> Seq<Seq<char>> {
    cli_features.filter(|f: Seq<char>| targets_runtime(f)).map_values(
        |f: Seq<char>| "perry-runtime/"@ + f,
    )
}

/// The requests for stdlib features.
pub open spec fn stdlib_requests(features: Seq<Seq<char>>) -> Seq<Seq<char>> {
    features.map_values(|f: Seq<char>| "perry-stdlib/"@ + f)
}

/// The requests for the engines and tables of the runtime that the program
/// uses.
pub open spec fn engine_requests(
    ctx: CompilationContext,
    dynamic: bool,
) -> Seq<Seq<char>> {
    request_if(ctx.needs_wasm_runtime, "perry-runtime/wasm-host"@)
        + request_if(ctx.uses_regex, "perry-runtime/regex-engine"@)
        + request_if(ctx.uses_temporal, "perry-runtime/temporal"@)
        + request_if(ctx.uses_url, "perry-runtime/url-engine"@)
        + request_if(ctx.uses_string_normalize, "perry-runtime/string-normalize"@)
        + request_if(ctx.uses_intl_segmenter, "perry-runtime/intl-segmenter"@)
        + request_if(ctx.uses_intl_namespace || dynamic, "perry-runtime/intl-namespace"@)
}

/// The requests for the member tables of the `globalThis` namespaces.
pub open spec fn global_requests(
    ctx: CompilationContext,
    dynamic: bool,
) -> Seq<Seq<char>> {
    request_if(ctx.uses_global_math || dynamic, "perry-runtime/global-math"@)
        + request_if(ctx.uses_global_json || dynamic, "perry-runtime/global-json"@)
        + request_if(ctx.uses_global_reflect || dynamic, "perry-runtime/global-reflect"@)
        + request_if(ctx.uses_global_atomics || dynamic, "perry-runtime/global-atomics"@)
        + request_if(ctx.uses_global_url || dynamic, "perry-runtime/global-url"@)
        + request_if(ctx.uses_global_text || dynamic, "perry-runtime/global-text"@)
        + request_if(ctx.uses_global_websocket || dynamic, "perry-runtime/global-websocket"@)
        + request_if(ctx.uses_global_webcrypto || dynamic, "perry-runtime/global-webcrypto"@)
        + request_if(ctx.uses_global_webfetch || dynamic, "perry-runtime/global-webfetch"@)
        + request_if(ctx.uses_proc_ipc || dynamic, "perry-runtime/proc-ipc"@)
}

/// The requests that follow the member tables.
pub open spec fn closing_requests(
    ctx: CompilationContext,
    sites: CodegenSites,
    env: BuildEnv,
) -> Seq<Seq<char>> {
    let generates = sites.deferred_dynamic_code || sites.known_codegen;
    request_if(ctx.uses_intl_locale, "perry-runtime/intl-locale"@)
        + request_if(ctx.uses_intl_datetime, "perry-runtime/intl-datetime"@)
        + request_if(ctx.uses_diagnostics || context::gc_trace(env), "perry-runtime/diagnostics"@)
        + request_if(ctx.uses_dgram, "perry-runtime/mod-dgram"@)
        + request_if(context::http2_gate(ctx), "perry-runtime/mod-http2-constants"@)
        + request_if(generates, "perry-runtime/dyn-eval"@)
        + request_if(generates && !ctx.uses_regex, "perry-runtime/regex-engine"@)
        + request_if(true, "perry-runtime/alloc-mimalloc"@)
        + request_if(context::bitcode_link(env), "perry-runtime/keepalive-anchors"@)
        + request_if(ctx.uses_fetch, "perry-runtime/external-fetch-symbols"@)
}

/// The feature requests of an auto-optimize build, in order.
pub open spec fn cross_features(
    ctx: CompilationContext,
    features: Set<Seq<char>>,
    cli_features: Seq<Seq<char>>,
    sites: CodegenSites,
    env: BuildEnv,
) -> Seq<Seq<char>> {
    request_if(true, "perry-runtime/full"@)
        + stdlib_requests(name_set::in_order(features))
        + cli_requests(cli_features)
        + engine_requests(ctx, sites.deferred_dynamic_code)
        + global_requests(ctx, sites.deferred_dynamic_code)
        + closing_requests(ctx, sites, env)
}

/// Adds a request where it is wanted.
fn push_when(requests: &mut Vec<String>, wanted: bool, feature: &str)
    ensures
        text::views(final(requests)@) == text::views(old(requests)@) + request_if(wanted, feature@),
{
    let ghost before = text::views(requests@);
    if wanted {
        requests.push(feature.to_owned());
    }
    proof {
        assert(text::views(requests@) =~= before + request_if(wanted, feature@));
    }
}

/// The requests for the engines and tables of the runtime.
fn engines(ctx: &CompilationContext, dynamic: bool) -> (r: Vec<String>)
    ensures
        text::views(r@) == engine_requests(*ctx, dynamic),
{
    let mut requests: Vec<String> = Vec::new();
    // Without `wasm-host` the shim TU stays out of libperry_runtime.a, so
    // unrelated programs don't drag in unresolved `perry_wasm_host_*`
    // references at link time.
    push_when(&mut requests, ctx.needs_wasm_runtime, "perry-runtime/wasm-host");
    proof {
        assert(text::views(requests@) =~= request_if(ctx.needs_wasm_runtime, "perry-runtime/wasm-host"@));
    }
    // Each engine/table is linked only when the program actually uses it.
    push_when(&mut requests, ctx.uses_regex, "perry-runtime/regex-engine");
    push_when(&mut requests, ctx.uses_temporal, "perry-runtime/temporal");
    push_when(&mut requests, ctx.uses_url, "perry-runtime/url-engine");
    push_when(&mut requests, ctx.uses_string_normalize, "perry-runtime/string-normalize");
    push_when(&mut requests, ctx.uses_intl_segmenter, "perry-runtime/intl-segmenter");
    // A deferred dynamic-code site can construct `Intl.…` from a runtime
    // string, so force it on there too.
    push_when(&mut requests, ctx.uses_intl_namespace || dynamic, "perry-runtime/intl-namespace");
    requests
}

/// The requests for the member tables of the `globalThis` namespaces. A
/// deferred dynamic-code site can reach any namespace by runtime string, so it
/// forces all of them on.
fn globals(ctx: &CompilationContext, dynamic: bool) -> (r: Vec<String>)
    ensures
        text::views(r@) == global_requests(*ctx, dynamic),
{
    let mut requests: Vec<String> = Vec::new();
    push_when(&mut requests, ctx.uses_global_math || dynamic, "perry-runtime/global-math");
    proof {
        assert(text::views(requests@) =~= request_if(
            ctx.uses_global_math || dynamic,
            "perry-runtime/global-math"@,
        ));
    }
    push_when(&mut requests, ctx.uses_global_json || dynamic, "perry-runtime/global-json");
    push_when(&mut requests, ctx.uses_global_reflect || dynamic, "perry-runtime/global-reflect");
    push_when(&mut requests, ctx.uses_global_atomics || dynamic, "perry-runtime/global-atomics");
    push_when(&mut requests, ctx.uses_global_url || dynamic, "perry-runtime/global-url");
    push_when(&mut requests, ctx.uses_global_text || dynamic, "perry-runtime/global-text");
    push_when(&mut requests, ctx.uses_global_websocket || dynamic, "perry-runtime/global-websocket");
    push_when(&mut requests, ctx.uses_global_webcrypto || dynamic, "perry-runtime/global-webcrypto");
    push_when(&mut requests, ctx.uses_global_webfetch || dynamic, "perry-runtime/global-webfetch");
    push_when(&mut requests, ctx.uses_proc_ipc || dynamic, "perry-runtime/proc-ipc");
    requests
}

/// The requests that follow the member tables.
fn closing(
    ctx: &CompilationContext,
    sites: &CodegenSites,
    env: &BuildEnv,
) -> (r: Vec<String>)
    ensures
        text::views(r@) == closing_requests(*ctx, *sites, *env),
{
    let mut requests: Vec<String> = Vec::new();
    push_when(&mut requests, ctx.uses_intl_locale, "perry-runtime/intl-locale");
    proof {
        assert(text::views(requests@) =~= request_if(ctx.uses_intl_locale, "perry-runtime/intl-locale"@));
    }
    push_when(&mut requests, ctx.uses_intl_datetime, "perry-runtime/intl-datetime");
    // Cold-path diagnostic JSON serializers: enabled only when the program
    // uses a heap-snapshot API or `process.report`. The env-driven
    // GC/typed-feedback dev trace JSON ride this feature too.
    push_when(
        &mut requests,
        ctx.uses_diagnostics || gc_trace_requested(env),
        "perry-runtime/diagnostics",
    );
    push_when(&mut requests, ctx.uses_dgram, "perry-runtime/mod-dgram");
    // Keep the `node:http2` constant tables when source imports `node:http2`
    // or calls `process.getBuiltinModule`, whose target is only known at
    // runtime.
    push_when(&mut requests, needs_http2_constants(ctx), "perry-runtime/mod-http2-constants");
    // The binary may construct functions from runtime strings: the optimized
    // runtime must carry the dyn-eval interpreter. The generated code also
    // leans on regex literals, so the regex engine rides along even when the
    // program's own source never uses one.
    let generates = sites.deferred_dynamic_code || sites.known_codegen;
    push_when(&mut requests, generates, "perry-runtime/dyn-eval");
    push_when(&mut requests, generates && !ctx.uses_regex, "perry-runtime/regex-engine");
    // mimalloc global allocator: force-added on EVERY auto-optimize rebuild,
    // including size-optimized ones. Runtime pointer-classification paths
    // assume the allocator's address bands.
    push_when(&mut requests, true, "perry-runtime/alloc-mimalloc");
    // The `#[used]` keep-alive anchors exist for the whole-program bitcode LTO
    // path only: the classic link keeps every reachable symbol via real
    // undefined references.
    push_when(&mut requests, bitcode_link_requested(env), "perry-runtime/keepalive-anchors");
    // Compile OUT perry-runtime's no-op fetch stubs whenever the program uses
    // fetch: perry-stdlib's `web-fetch` then supplies the REAL impls.
    push_when(&mut requests, ctx.uses_fetch, "perry-runtime/external-fetch-symbols");
    requests
}

/// Adds `more` to `requests`.
fn push_all(requests: &mut Vec<String>, more: Vec<String>)
    ensures
        text::views(final(requests)@) == text::views(old(requests)@) + text::views(more@),
{
    let ghost before = text::views(requests@);
    let mut rest = more;
    requests.append(&mut rest);
    proof {
        assert(text::views(requests@) =~= before + text::views(more@));
    }
}

/// Adds the requests for stdlib features.
fn push_stdlib(requests: &mut Vec<String>, features: &NameSet)
    ensures
        text::views(final(requests)@) == text::views(old(requests)@) + stdlib_requests(
            name_set::in_order(features@),
        ),
{
    let names = features.names();
    let ghost before = text::views(requests@);
    let ghost all = stdlib_requests(text::views(names@));
    let mut i: usize = 0;
    proof {
        assert(text::views(requests@) =~= before + all.take(0));
    }
    while i < names.len()
        invariant
            i <= names@.len(),
            all == stdlib_requests(text::views(names@)),
            text::views(requests@) == before + all.take(i as int),
        decreases names@.len() - i,
    {
        let ghost mid = text::views(requests@);
        requests.push("perry-stdlib/".to_owned().concat(names[i].as_str()));
        proof {
            assert(text::views(requests@) =~= mid.push(all[i as int]));
            assert(text::views(requests@) =~= before + all.take(i + 1));
        }
        i = i + 1;
    }
    proof {
        assert(all.take(all.len() as int) =~= all);
    }
}

/// Adds the requests of the command line. `--features` values that target the
/// runtime (game-loop entry-point shims) need `perry-runtime/<f>` passed
/// through, not `perry-stdlib/<f>`: they gate a Rust module, not an npm dep
/// surface.
fn push_cli(requests: &mut Vec<String>, cli_features: &[String])
    ensures
        text::views(final(requests)@) == text::views(old(requests)@) + cli_requests(
            text::views(cli_features@),
        ),
{
    let ghost before = text::views(requests@);
    let ghost all = text::views(cli_features@);
    let ghost wanted = |f: Seq<char>| targets_runtime(f);
    let ghost to_request = |f: Seq<char>| "perry-runtime/"@ + f;
    let mut i: usize = 0;
    proof {
        assert(all.take(0) =~= Seq::empty());
        assert(text::views(requests@) =~= before + cli_requests(all.take(0)));
    }
    while i < cli_features.len()
        invariant
            i <= cli_features@.len(),
            all == text::views(cli_features@),
            wanted == |f: Seq<char>| targets_runtime(f),
            to_request == |f: Seq<char>| "perry-runtime/"@ + f,
            text::views(requests@) == before + cli_requests(all.take(i as int)),
        decreases cli_features@.len() - i,
    {
        let f = cli_features[i].as_str();
        let ghost mid = text::views(requests@);
        proof {
            broadcast use Seq::lemma_filter_push;

            assert(all.take(i + 1) =~= all.take(i as int).push(f@));
        }
        if str_eq(f, "ios-game-loop") || str_eq(f, "watchos-game-loop") || str_eq(f, "ohos-napi") {
            requests.push("perry-runtime/".to_owned().concat(f));
            proof {
                assert(text::views(requests@) =~= mid.push(to_request(f@)));
                assert(all.take(i as int).filter(wanted).push(f@).map_values(to_request)
                    =~= all.take(i as int).filter(wanted).map_values(to_request).push(
                    to_request(f@),
                ));
                assert(text::views(requests@) =~= before + cli_requests(all.take(i + 1)));
            }
        }
        i = i + 1;
    }
    proof {
        assert(all.take(all.len() as int) =~= all);
    }
}

/// The feature requests of an auto-optimize build.
pub fn auto_optimized_cross_features(
    ctx: &CompilationContext,
    features: &NameSet,
    cli_features: &[String],
    sites: &CodegenSites,
    env: &BuildEnv,
) -> (r: Vec<String>)
    ensures
        text::views(r@) == cross_features(
            *ctx,
            features@,
            text::views(cli_features@),
            *sites,
            *env,
        ),
{
    let mut requests: Vec<String> = Vec::new();
    // perry-runtime's "full" feature gates plugin + os.hostname/homedir. It is
    // kept on so existing behavior is preserved; the panic mode is what
    // shrinks the binary.
    push_when(&mut requests, true, "perry-runtime/full");
    proof {
        assert(text::views(requests@) =~= request_if(true, "perry-runtime/full"@));
    }
    push_stdlib(&mut requests, features);
    push_cli(&mut requests, cli_features);
    push_all(&mut requests, engines(ctx, sites.deferred_dynamic_code));
    push_all(&mut requests, globals(ctx, sites.deferred_dynamic_code));
    push_all(&mut requests, closing(ctx, sites, env));
    requests
}

proof fn lemma_add_contains(s: Seq<Seq<char>>, t: Seq<Seq<char>>, x: Seq<char>)
    ensures
        (s + t).contains(x) <==> s.contains(x) || t.contains(x),
{
    if s.contains(x) {
        assert((s + t)[s.index_of(x)] == x);
    }
    if t.contains(x) {
        assert((s + t)[s.len() + t.index_of(x)] == x);
    }
    if (s + t).contains(x) {
        let i = (s + t).index_of(x);
        if i < s.len() {
            assert(s[i] == x);
        } else {
            assert(t[i - s.len()] == x);
        }
    }
}

proof fn lemma_when_contains(wanted: bool, feature: Seq<char>, x: Seq<char>)
    ensures
        request_if(wanted, feature).contains(x) <==> wanted && x == feature,
{
    if wanted {
        assert(seq![feature][0] == feature);
    }
}

proof fn lemma_push_contains(s: Seq<Seq<char>>, wanted: bool, feature: Seq<char>, x: Seq<char>)
    ensures
        (s + request_if(wanted, feature)).contains(x) <==> s.contains(x) || (wanted && x == feature),
{
    lemma_add_contains(s, request_if(wanted, feature), x);
    lemma_when_contains(wanted, feature, x);
}

/// Whether `x` requests an engine or table of the runtime, and is wanted.
spec fn engine_wanted(ctx: CompilationContext, dynamic: bool, x: Seq<char>) -> bool {
    ||| ctx.needs_wasm_runtime && x == "perry-runtime/wasm-host"@
    ||| ctx.uses_regex && x == "perry-runtime/regex-engine"@
    ||| ctx.uses_temporal && x == "perry-runtime/temporal"@
    ||| ctx.uses_url && x == "perry-runtime/url-engine"@
    ||| ctx.uses_string_normalize && x == "perry-runtime/string-normalize"@
    ||| ctx.uses_intl_segmenter && x == "perry-runtime/intl-segmenter"@
    ||| (ctx.uses_intl_namespace || dynamic) && x == "perry-runtime/intl-namespace"@
}

proof fn lemma_engine_requests(ctx: CompilationContext, dynamic: bool, x: Seq<char>)
    ensures
        engine_requests(ctx, dynamic).contains(x) <==> engine_wanted(ctx, dynamic, x),
{
    let s0 = request_if(ctx.needs_wasm_runtime, "perry-runtime/wasm-host"@);
    lemma_when_contains(ctx.needs_wasm_runtime, "perry-runtime/wasm-host"@, x);
    let s1 = s0 + request_if(ctx.uses_regex, "perry-runtime/regex-engine"@);
    lemma_push_contains(s0, ctx.uses_regex, "perry-runtime/regex-engine"@, x);
    let s2 = s1 + request_if(ctx.uses_temporal, "perry-runtime/temporal"@);
    lemma_push_contains(s1, ctx.uses_temporal, "perry-runtime/temporal"@, x);
    let s3 = s2 + request_if(ctx.uses_url, "perry-runtime/url-engine"@);
    lemma_push_contains(s2, ctx.uses_url, "perry-runtime/url-engine"@, x);
    let s4 = s3 + request_if(ctx.uses_string_normalize, "perry-runtime/string-normalize"@);
    lemma_push_contains(s3, ctx.uses_string_normalize, "perry-runtime/string-normalize"@, x);
    let s5 = s4 + request_if(ctx.uses_intl_segmenter, "perry-runtime/intl-segmenter"@);
    lemma_push_contains(s4, ctx.uses_intl_segmenter, "perry-runtime/intl-segmenter"@, x);
    lemma_push_contains(s5, ctx.uses_intl_namespace || dynamic, "perry-runtime/intl-namespace"@, x);
}

/// Whether `x` requests the member table of a namespace, and is wanted.
spec fn global_wanted(ctx: CompilationContext, dynamic: bool, x: Seq<char>) -> bool {
    ||| (ctx.uses_global_math || dynamic) && x == "perry-runtime/global-math"@
    ||| (ctx.uses_global_json || dynamic) && x == "perry-runtime/global-json"@
    ||| (ctx.uses_global_reflect || dynamic) && x == "perry-runtime/global-reflect"@
    ||| (ctx.uses_global_atomics || dynamic) && x == "perry-runtime/global-atomics"@
    ||| (ctx.uses_global_url || dynamic) && x == "perry-runtime/global-url"@
    ||| (ctx.uses_global_text || dynamic) && x == "perry-runtime/global-text"@
    ||| (ctx.uses_global_websocket || dynamic) && x == "perry-runtime/global-websocket"@
    ||| (ctx.uses_global_webcrypto || dynamic) && x == "perry-runtime/global-webcrypto"@
    ||| (ctx.uses_global_webfetch || dynamic) && x == "perry-runtime/global-webfetch"@
    ||| (ctx.uses_proc_ipc || dynamic) && x == "perry-runtime/proc-ipc"@
}

proof fn lemma_global_requests(ctx: CompilationContext, dynamic: bool, x: Seq<char>)
    ensures
        global_requests(ctx, dynamic).contains(x) <==> global_wanted(ctx, dynamic, x),
{
    let s0 = request_if(ctx.uses_global_math || dynamic, "perry-runtime/global-math"@);
    lemma_when_contains(ctx.uses_global_math || dynamic, "perry-runtime/global-math"@, x);
    let s1 = s0 + request_if(ctx.uses_global_json || dynamic, "perry-runtime/global-json"@);
    lemma_push_contains(s0, ctx.uses_global_json || dynamic, "perry-runtime/global-json"@, x);
    let s2 = s1 + request_if(ctx.uses_global_reflect || dynamic, "perry-runtime/global-reflect"@);
    lemma_push_contains(s1, ctx.uses_global_reflect || dynamic, "perry-runtime/global-reflect"@, x);
    let s3 = s2 + request_if(ctx.uses_global_atomics || dynamic, "perry-runtime/global-atomics"@);
    lemma_push_contains(s2, ctx.uses_global_atomics || dynamic, "perry-runtime/global-atomics"@, x);
    let s4 = s3 + request_if(ctx.uses_global_url || dynamic, "perry-runtime/global-url"@);
    lemma_push_contains(s3, ctx.uses_global_url || dynamic, "perry-runtime/global-url"@, x);
    let s5 = s4 + request_if(ctx.uses_global_text || dynamic, "perry-runtime/global-text"@);
    lemma_push_contains(s4, ctx.uses_global_text || dynamic, "perry-runtime/global-text"@, x);
    let s6 = s5 + request_if(ctx.uses_global_websocket || dynamic, "perry-runtime/global-websocket"@);
    lemma_push_contains(s5, ctx.uses_global_websocket || dynamic, "perry-runtime/global-websocket"@, x);
    let s7 = s6 + request_if(ctx.uses_global_webcrypto || dynamic, "perry-runtime/global-webcrypto"@);
    lemma_push_contains(s6, ctx.uses_global_webcrypto || dynamic, "perry-runtime/global-webcrypto"@, x);
    let s8 = s7 + request_if(ctx.uses_global_webfetch || dynamic, "perry-runtime/global-webfetch"@);
    lemma_push_contains(s7, ctx.uses_global_webfetch || dynamic, "perry-runtime/global-webfetch"@, x);
    lemma_push_contains(s8, ctx.uses_proc_ipc || dynamic, "perry-runtime/proc-ipc"@, x);
}

/// Whether `x` requests what follows the member tables, and is wanted.
spec fn closing_wanted(ctx: CompilationContext, sites: CodegenSites, env: BuildEnv, x: Seq<char>) -> bool {
    let generates = sites.deferred_dynamic_code || sites.known_codegen;
    ||| ctx.uses_intl_locale && x == "perry-runtime/intl-locale"@
    ||| ctx.uses_intl_datetime && x == "perry-runtime/intl-datetime"@
    ||| (ctx.uses_diagnostics || context::gc_trace(env)) && x == "perry-runtime/diagnostics"@
    ||| ctx.uses_dgram && x == "perry-runtime/mod-dgram"@
    ||| context::http2_gate(ctx) && x == "perry-runtime/mod-http2-constants"@
    ||| generates && x == "perry-runtime/dyn-eval"@
    ||| generates && !ctx.uses_regex && x == "perry-runtime/regex-engine"@
    ||| x == "perry-runtime/alloc-mimalloc"@
    ||| context::bitcode_link(env) && x == "perry-runtime/keepalive-anchors"@
    ||| ctx.uses_fetch && x == "perry-runtime/external-fetch-symbols"@
}

proof fn lemma_closing_requests(ctx: CompilationContext, sites: CodegenSites, env: BuildEnv, x: Seq<char>)
    ensures
        closing_requests(ctx, sites, env).contains(x) <==> closing_wanted(ctx, sites, env, x),
{
    let generates = sites.deferred_dynamic_code || sites.known_codegen;
    let s0 = request_if(ctx.uses_intl_locale, "perry-runtime/intl-locale"@);
    lemma_when_contains(ctx.uses_intl_locale, "perry-runtime/intl-locale"@, x);
    let s1 = s0 + request_if(ctx.uses_intl_datetime, "perry-runtime/intl-datetime"@);
    lemma_push_contains(s0, ctx.uses_intl_datetime, "perry-runtime/intl-datetime"@, x);
    let s2 = s1 + request_if(ctx.uses_diagnostics || context::gc_trace(env), "perry-runtime/diagnostics"@);
    lemma_push_contains(s1, ctx.uses_diagnostics || context::gc_trace(env), "perry-runtime/diagnostics"@, x);
    let s3 = s2 + request_if(ctx.uses_dgram, "perry-runtime/mod-dgram"@);
    lemma_push_contains(s2, ctx.uses_dgram, "perry-runtime/mod-dgram"@, x);
    let s4 = s3 + request_if(context::http2_gate(ctx), "perry-runtime/mod-http2-constants"@);
    lemma_push_contains(s3, context::http2_gate(ctx), "perry-runtime/mod-http2-constants"@, x);
    let s5 = s4 + request_if(generates, "perry-runtime/dyn-eval"@);
    lemma_push_contains(s4, generates, "perry-runtime/dyn-eval"@, x);
    let s6 = s5 + request_if(generates && !ctx.uses_regex, "perry-runtime/regex-engine"@);
    lemma_push_contains(s5, generates && !ctx.uses_regex, "perry-runtime/regex-engine"@, x);
    let s7 = s6 + request_if(true, "perry-runtime/alloc-mimalloc"@);
    lemma_push_contains(s6, true, "perry-runtime/alloc-mimalloc"@, x);
    let s8 = s7 + request_if(context::bitcode_link(env), "perry-runtime/keepalive-anchors"@);
    lemma_push_contains(s7, context::bitcode_link(env), "perry-runtime/keepalive-anchors"@, x);
    lemma_push_contains(s8, ctx.uses_fetch, "perry-runtime/external-fetch-symbols"@, x);
}

/// Whether `x` is a request that does not come from the gates of the program.
spec fn from_lists(features: Set<Seq<char>>, cli_features: Seq<Seq<char>>, x: Seq<char>) -> bool {
    stdlib_requests(name_set::in_order(features)).contains(x) || cli_requests(
        cli_features,
    ).contains(x)
}

proof fn lemma_cross_features(
    ctx: CompilationContext,
    features: Set<Seq<char>>,
    cli_features: Seq<Seq<char>>,
    sites: CodegenSites,
    env: BuildEnv,
    x: Seq<char>,
)
    ensures
        cross_features(ctx, features, cli_features, sites, env).contains(x) <==> {
            ||| x == "perry-runtime/full"@
            ||| from_lists(features, cli_features, x)
            ||| engine_requests(ctx, sites.deferred_dynamic_code).contains(x)
            ||| global_requests(ctx, sites.deferred_dynamic_code).contains(x)
            ||| closing_requests(ctx, sites, env).contains(x)
        },
{
    let s0 = request_if(true, "perry-runtime/full"@);
    let s1 = s0 + stdlib_requests(name_set::in_order(features));
    let s2 = s1 + cli_requests(cli_features);
    let s3 = s2 + engine_requests(ctx, sites.deferred_dynamic_code);
    let s4 = s3 + global_requests(ctx, sites.deferred_dynamic_code);
    lemma_when_contains(true, "perry-runtime/full"@, x);
    lemma_add_contains(s0, stdlib_requests(name_set::in_order(features)), x);
    lemma_add_contains(s1, cli_requests(cli_features), x);
    lemma_add_contains(s2, engine_requests(ctx, sites.deferred_dynamic_code), x);
    lemma_add_contains(s3, global_requests(ctx, sites.deferred_dynamic_code), x);
    lemma_add_contains(s4, closing_requests(ctx, sites, env), x);
}

/// Lengths and characters that tell the requests apart.
proof fn lemma_literals()
    ensures
        "perry-runtime/full"@.len() == 18,
        "perry-runtime/full"@[6] == 'r',
        "perry-runtime/full"@[14] == 'f',
        "perry-runtime/wasm-host"@.len() == 23,
        "perry-runtime/wasm-host"@[6] == 'r',
        "perry-runtime/wasm-host"@[14] == 'w',
        "perry-runtime/regex-engine"@.len() == 26,
        "perry-runtime/regex-engine"@[6] == 'r',
        "perry-runtime/regex-engine"@[14] == 'r',
        "perry-runtime/regex-engine"@[24] == 'n',
        "perry-runtime/temporal"@.len() == 22,
        "perry-runtime/temporal"@[6] == 'r',
        "perry-runtime/temporal"@[14] == 't',
        "perry-runtime/url-engine"@.len() == 24,
        "perry-runtime/url-engine"@[6] == 'r',
        "perry-runtime/url-engine"@[14] == 'u',
        "perry-runtime/string-normalize"@.len() == 30,
        "perry-runtime/string-normalize"@[6] == 'r',
        "perry-runtime/string-normalize"@[14] == 's',
        "perry-runtime/string-normalize"@[24] == 'm',
        "perry-runtime/intl-segmenter"@.len() == 28,
        "perry-runtime/intl-segmenter"@[6] == 'r',
        "perry-runtime/intl-segmenter"@[14] == 'i',
        "perry-runtime/intl-segmenter"@[24] == 'n',
        "perry-runtime/intl-namespace"@.len() == 28,
        "perry-runtime/intl-namespace"@[6] == 'r',
        "perry-runtime/intl-namespace"@[14] == 'i',
        "perry-runtime/intl-namespace"@[24] == 'p',
        "perry-runtime/global-math"@.len() == 25,
        "perry-runtime/global-math"@[6] == 'r',
        "perry-runtime/global-math"@[14] == 'g',
        "perry-runtime/global-math"@[24] == 'h',
        "perry-runtime/global-json"@.len() == 25,
        "perry-runtime/global-json"@[6] == 'r',
        "perry-runtime/global-json"@[14] == 'g',
        "perry-runtime/global-json"@[24] == 'n',
        "perry-runtime/global-reflect"@.len() == 28,
        "perry-runtime/global-reflect"@[6] == 'r',
        "perry-runtime/global-reflect"@[14] == 'g',
        "perry-runtime/global-reflect"@[24] == 'l',
        "perry-runtime/global-atomics"@.len() == 28,
        "perry-runtime/global-atomics"@[6] == 'r',
        "perry-runtime/global-atomics"@[14] == 'g',
        "perry-runtime/global-atomics"@[24] == 'm',
        "perry-runtime/global-url"@.len() == 24,
        "perry-runtime/global-url"@[6] == 'r',
        "perry-runtime/global-url"@[14] == 'g',
        "perry-runtime/global-text"@.len() == 25,
        "perry-runtime/global-text"@[6] == 'r',
        "perry-runtime/global-text"@[14] == 'g',
        "perry-runtime/global-text"@[24] == 't',
        "perry-runtime/global-websocket"@.len() == 30,
        "perry-runtime/global-websocket"@[6] == 'r',
        "perry-runtime/global-websocket"@[14] == 'g',
        "perry-runtime/global-websocket"@[24] == 's',
        "perry-runtime/global-webcrypto"@.len() == 30,
        "perry-runtime/global-webcrypto"@[6] == 'r',
        "perry-runtime/global-webcrypto"@[14] == 'g',
        "perry-runtime/global-webcrypto"@[24] == 'c',
        "perry-runtime/global-webfetch"@.len() == 29,
        "perry-runtime/global-webfetch"@[6] == 'r',
        "perry-runtime/global-webfetch"@[14] == 'g',
        "perry-runtime/global-webfetch"@[24] == 'f',
        "perry-runtime/proc-ipc"@.len() == 22,
        "perry-runtime/proc-ipc"@[6] == 'r',
        "perry-runtime/proc-ipc"@[14] == 'p',
        "perry-runtime/intl-locale"@.len() == 25,
        "perry-runtime/intl-locale"@[6] == 'r',
        "perry-runtime/intl-locale"@[14] == 'i',
        "perry-runtime/intl-locale"@[24] == 'e',
        "perry-runtime/intl-datetime"@.len() == 27,
        "perry-runtime/intl-datetime"@[6] == 'r',
        "perry-runtime/intl-datetime"@[14] == 'i',
        "perry-runtime/intl-datetime"@[24] == 'i',
        "perry-runtime/diagnostics"@.len() == 25,
        "perry-runtime/diagnostics"@[6] == 'r',
        "perry-runtime/diagnostics"@[14] == 'd',
        "perry-runtime/diagnostics"@[24] == 's',
        "perry-runtime/mod-dgram"@.len() == 23,
        "perry-runtime/mod-dgram"@[6] == 'r',
        "perry-runtime/mod-dgram"@[14] == 'm',
        "perry-runtime/mod-http2-constants"@.len() == 33,
        "perry-runtime/mod-http2-constants"@[6] == 'r',
        "perry-runtime/mod-http2-constants"@[14] == 'm',
        "perry-runtime/mod-http2-constants"@[24] == 'c',
        "perry-runtime/dyn-eval"@.len() == 22,
        "perry-runtime/dyn-eval"@[6] == 'r',
        "perry-runtime/dyn-eval"@[14] == 'd',
        "perry-runtime/alloc-mimalloc"@.len() == 28,
        "perry-runtime/alloc-mimalloc"@[6] == 'r',
        "perry-runtime/alloc-mimalloc"@[14] == 'a',
        "perry-runtime/alloc-mimalloc"@[24] == 'l',
        "perry-runtime/keepalive-anchors"@.len() == 31,
        "perry-runtime/keepalive-anchors"@[6] == 'r',
        "perry-runtime/keepalive-anchors"@[14] == 'k',
        "perry-runtime/keepalive-anchors"@[24] == 'a',
        "perry-runtime/external-fetch-symbols"@.len() == 36,
        "perry-runtime/external-fetch-symbols"@[6] == 'r',
        "perry-runtime/external-fetch-symbols"@[14] == 'e',
        "perry-runtime/external-fetch-symbols"@[24] == 'e',
{
    reveal_strlit("perry-runtime/full");
    reveal_strlit("perry-runtime/wasm-host");
    reveal_strlit("perry-runtime/regex-engine");
    reveal_strlit("perry-runtime/temporal");
    reveal_strlit("perry-runtime/url-engine");
    reveal_strlit("perry-runtime/string-normalize");
    reveal_strlit("perry-runtime/intl-segmenter");
    reveal_strlit("perry-runtime/intl-namespace");
    reveal_strlit("perry-runtime/global-math");
    reveal_strlit("perry-runtime/global-json");
    reveal_strlit("perry-runtime/global-reflect");
    reveal_strlit("perry-runtime/global-atomics");
    reveal_strlit("perry-runtime/global-url");
    reveal_strlit("perry-runtime/global-text");
    reveal_strlit("perry-runtime/global-websocket");
    reveal_strlit("perry-runtime/global-webcrypto");
    reveal_strlit("perry-runtime/global-webfetch");
    reveal_strlit("perry-runtime/proc-ipc");
    reveal_strlit("perry-runtime/intl-locale");
    reveal_strlit("perry-runtime/intl-datetime");
    reveal_strlit("perry-runtime/diagnostics");
    reveal_strlit("perry-runtime/mod-dgram");
    reveal_strlit("perry-runtime/mod-http2-constants");
    reveal_strlit("perry-runtime/dyn-eval");
    reveal_strlit("perry-runtime/alloc-mimalloc");
    reveal_strlit("perry-runtime/keepalive-anchors");
    reveal_strlit("perry-runtime/external-fetch-symbols");
}

/// Whether `x` looks like a request from the features of the stdlib or the
/// command line, which none that the program gates does.
spec fn listed(x: Seq<char>) -> bool {
    ||| x[6] == 's'
    ||| x.len() == 27 && x[14] == 'i' && x[24] == 'o'
    ||| x.len() == 31 && x[14] == 'w' && x[24] == 'm'
    ||| x.len() == 23 && x[14] == 'o'
}

proof fn lemma_from_lists(features: Set<Seq<char>>, cli_features: Seq<Seq<char>>, x: Seq<char>)
    requires
        from_lists(features, cli_features, x),
    ensures
        listed(x),
{
    reveal_strlit("perry-stdlib/");
    reveal_strlit("perry-runtime/");
    reveal_strlit("ios-game-loop");
    reveal_strlit("watchos-game-loop");
    reveal_strlit("ohos-napi");
    let std = name_set::in_order(features);
    if stdlib_requests(std).contains(x) {
        let i = stdlib_requests(std).index_of(x);
        assert(x == "perry-stdlib/"@ + std[i]);
        assert(x[6] == "perry-stdlib/"@[6]);
    } else {
        let wanted = |f: Seq<char>| targets_runtime(f);
        let picked = cli_features.filter(wanted);
        let i = cli_requests(cli_features).index_of(x);
        let f = picked[i];
        assert(picked.contains(f));
        text::lemma_filter_membership(cli_features, wanted, f);
        assert(x == "perry-runtime/"@ + f);
        assert(x.len() == 14 + f.len());
        assert(x[6] == 'r');
        if 14 < x.len() {
            assert(x[14] == f[0]);
        }
        if 24 < x.len() {
            assert(x[24] == f[10]);
        }
    }
}

/// The requests, gate by gate.
proof fn lemma_gates(
    ctx: CompilationContext,
    features: Set<Seq<char>>,
    cli_features: Seq<Seq<char>>,
    sites: CodegenSites,
    env: BuildEnv,
    x: Seq<char>,
)
    ensures
        cross_features(ctx, features, cli_features, sites, env).contains(x) <==> {
            ||| x == "perry-runtime/full"@
            ||| from_lists(features, cli_features, x)
            ||| engine_wanted(ctx, sites.deferred_dynamic_code, x)
            ||| global_wanted(ctx, sites.deferred_dynamic_code, x)
            ||| closing_wanted(ctx, sites, env, x)
        },
        from_lists(features, cli_features, x) ==> listed(x),
{
    lemma_cross_features(ctx, features, cli_features, sites, env, x);
    lemma_engine_requests(ctx, sites.deferred_dynamic_code, x);
    lemma_global_requests(ctx, sites.deferred_dynamic_code, x);
    lemma_closing_requests(ctx, sites, env, x);
    if from_lists(features, cli_features, x) {
        lemma_from_lists(features, cli_features, x);
    }
}

/// Each engine and table of the runtime is requested if and only if the program
/// uses it, or code made at run time may.
pub proof fn law_engines_are_requested_as_needed(
    ctx: CompilationContext,
    features: Set<Seq<char>>,
    cli_features: Seq<Seq<char>>,
    sites: CodegenSites,
    env: BuildEnv,
)
    ensures
        ({
            let all = cross_features(ctx, features, cli_features, sites, env);
            &&& all.contains("perry-runtime/wasm-host"@) <==> ctx.needs_wasm_runtime
            &&& all.contains("perry-runtime/regex-engine"@)
                <==> ctx.uses_regex || sites.deferred_dynamic_code || sites.known_codegen
            &&& all.contains("perry-runtime/temporal"@) <==> ctx.uses_temporal
            &&& all.contains("perry-runtime/url-engine"@) <==> ctx.uses_url
            &&& all.contains("perry-runtime/string-normalize"@) <==> ctx.uses_string_normalize
            &&& all.contains("perry-runtime/intl-segmenter"@) <==> ctx.uses_intl_segmenter
            &&& all.contains("perry-runtime/intl-namespace"@)
                <==> ctx.uses_intl_namespace || sites.deferred_dynamic_code
        }),
{
    lemma_literals();
    lemma_gates(ctx, features, cli_features, sites, env, "perry-runtime/wasm-host"@);
    lemma_gates(ctx, features, cli_features, sites, env, "perry-runtime/regex-engine"@);
    lemma_gates(ctx, features, cli_features, sites, env, "perry-runtime/temporal"@);
    lemma_gates(ctx, features, cli_features, sites, env, "perry-runtime/url-engine"@);
    lemma_gates(ctx, features, cli_features, sites, env, "perry-runtime/string-normalize"@);
    lemma_gates(ctx, features, cli_features, sites, env, "perry-runtime/intl-segmenter"@);
    lemma_gates(ctx, features, cli_features, sites, env, "perry-runtime/intl-namespace"@);
}

/// Each `globalThis` namespace is requested if and only if the program uses it,
/// or deferred dynamic code may reach it.
pub proof fn law_namespaces_are_requested_as_needed(
    ctx: CompilationContext,
    features: Set<Seq<char>>,
    cli_features: Seq<Seq<char>>,
    sites: CodegenSites,
    env: BuildEnv,
)
    ensures
        ({
            let all = cross_features(ctx, features, cli_features, sites, env);
            &&& all.contains("perry-runtime/global-math"@)
                <==> ctx.uses_global_math || sites.deferred_dynamic_code
            &&& all.contains("perry-runtime/global-json"@)
                <==> ctx.uses_global_json || sites.deferred_dynamic_code
            &&& all.contains("perry-runtime/global-reflect"@)
                <==> ctx.uses_global_reflect || sites.deferred_dynamic_code
            &&& all.contains("perry-runtime/global-atomics"@)
                <==> ctx.uses_global_atomics || sites.deferred_dynamic_code
            &&& all.contains("perry-runtime/global-url"@)
                <==> ctx.uses_global_url || sites.deferred_dynamic_code
            &&& all.contains("perry-runtime/global-text"@)
                <==> ctx.uses_global_text || sites.deferred_dynamic_code
            &&& all.contains("perry-runtime/global-websocket"@)
                <==> ctx.uses_global_websocket || sites.deferred_dynamic_code
            &&& all.contains("perry-runtime/global-webcrypto"@)
                <==> ctx.uses_global_webcrypto || sites.deferred_dynamic_code
            &&& all.contains("perry-runtime/global-webfetch"@)
                <==> ctx.uses_global_webfetch || sites.deferred_dynamic_code
            &&& all.contains("perry-runtime/proc-ipc"@)
                <==> ctx.uses_proc_ipc || sites.deferred_dynamic_code
        }),
{
    lemma_literals();
    lemma_gates(ctx, features, cli_features, sites, env, "perry-runtime/global-math"@);
    lemma_gates(ctx, features, cli_features, sites, env, "perry-runtime/global-json"@);
    lemma_gates(ctx, features, cli_features, sites, env, "perry-runtime/global-reflect"@);
    lemma_gates(ctx, features, cli_features, sites, env, "perry-runtime/global-atomics"@);
    lemma_gates(ctx, features, cli_features, sites, env, "perry-runtime/global-url"@);
    lemma_gates(ctx, features, cli_features, sites, env, "perry-runtime/global-text"@);
    lemma_gates(ctx, features, cli_features, sites, env, "perry-runtime/global-websocket"@);
    lemma_gates(ctx, features, cli_features, sites, env, "perry-runtime/global-webcrypto"@);
    lemma_gates(ctx, features, cli_features, sites, env, "perry-runtime/global-webfetch"@);
    lemma_gates(ctx, features, cli_features, sites, env, "perry-runtime/proc-ipc"@);
}

/// The interpreter for code made at run time, the diagnostics, the modules, the
/// anchors and the fetch symbols are requested if and only if they are needed,
/// the allocator always.
pub proof fn law_modules_are_requested_as_needed(
    ctx: CompilationContext,
    features: Set<Seq<char>>,
    cli_features: Seq<Seq<char>>,
    sites: CodegenSites,
    env: BuildEnv,
)
    ensures
        ({
            let all = cross_features(ctx, features, cli_features, sites, env);
            &&& all.contains("perry-runtime/intl-locale"@) <==> ctx.uses_intl_locale
            &&& all.contains("perry-runtime/intl-datetime"@) <==> ctx.uses_intl_datetime
            &&& all.contains("perry-runtime/diagnostics"@)
                <==> ctx.uses_diagnostics || context::gc_trace(env)
            &&& all.contains("perry-runtime/mod-dgram"@) <==> ctx.uses_dgram
            &&& all.contains("perry-runtime/mod-http2-constants"@) <==> context::http2_gate(ctx)
            &&& all.contains("perry-runtime/dyn-eval"@)
                <==> sites.deferred_dynamic_code || sites.known_codegen
            &&& all.contains("perry-runtime/alloc-mimalloc"@)
            &&& all.contains("perry-runtime/keepalive-anchors"@) <==> context::bitcode_link(env)
            &&& all.contains("perry-runtime/external-fetch-symbols"@) <==> ctx.uses_fetch
        }),
{
    lemma_literals();
    lemma_gates(ctx, features, cli_features, sites, env, "perry-runtime/intl-locale"@);
    lemma_gates(ctx, features, cli_features, sites, env, "perry-runtime/intl-datetime"@);
    lemma_gates(ctx, features, cli_features, sites, env, "perry-runtime/diagnostics"@);
    lemma_gates(ctx, features, cli_features, sites, env, "perry-runtime/mod-dgram"@);
    lemma_gates(ctx, features, cli_features, sites, env, "perry-runtime/mod-http2-constants"@);
    lemma_gates(ctx, features, cli_features, sites, env, "perry-runtime/dyn-eval"@);
    lemma_gates(ctx, features, cli_features, sites, env, "perry-runtime/alloc-mimalloc"@);
    lemma_gates(ctx, features, cli_features, sites, env, "perry-runtime/keepalive-anchors"@);
    lemma_gates(ctx, features, cli_features, sites, env, "perry-runtime/external-fetch-symbols"@);
}

proof fn lemma_add_first(s: Seq<Seq<char>>, t: Seq<Seq<char>>)
    requires
        s.len() > 0,
    ensures
        (s + t).len() > 0,
        (s + t)[0] == s[0],
{
}

/// The runtime is always requested in full, first of all.
pub proof fn law_full_runtime_is_requested_first(
    ctx: CompilationContext,
    features: Set<Seq<char>>,
    cli_features: Seq<Seq<char>>,
    sites: CodegenSites,
    env: BuildEnv,
)
    ensures
        cross_features(ctx, features, cli_features, sites, env).len() > 0,
        cross_features(ctx, features, cli_features, sites, env)[0] == "perry-runtime/full"@,
{
    let s0 = request_if(true, "perry-runtime/full"@);
    let s1 = s0 + stdlib_requests(name_set::in_order(features));
    let s2 = s1 + cli_requests(cli_features);
    let s3 = s2 + engine_requests(ctx, sites.deferred_dynamic_code);
    let s4 = s3 + global_requests(ctx, sites.deferred_dynamic_code);
    lemma_add_first(s0, stdlib_requests(name_set::in_order(features)));
    lemma_add_first(s1, cli_requests(cli_features));
    lemma_add_first(s2, engine_requests(ctx, sites.deferred_dynamic_code));
    lemma_add_first(s3, global_requests(ctx, sites.deferred_dynamic_code));
    lemma_add_first(s4, closing_requests(ctx, sites, env));
}

/// Whether `s` repeats nothing and holds nothing that was not seen.
spec fn distinct(s: Seq<Seq<char>>, seen: Set<Seq<char>>) -> bool {
    s.no_duplicates() && forall|x: Seq<char>| #[trigger] s.contains(x) ==> seen.contains(x)
}

proof fn lemma_distinct_push(s: Seq<Seq<char>>, seen: Set<Seq<char>>, wanted: bool, f: Seq<char>)
    requires
        distinct(s, seen),
        !seen.contains(f),
    ensures
        distinct(s + request_if(wanted, f), seen.insert(f)),
{
    let next = s + request_if(wanted, f);
    assert forall|x: Seq<char>| #[trigger] next.contains(x) implies seen.insert(f).contains(x) by {
        lemma_push_contains(s, wanted, f, x);
    }
    if wanted {
        assert(next =~= s.push(f));
        assert forall|i: int, j: int| 0 <= i < next.len() && 0 <= j < next.len() && i
            != j implies next[i] != next[j] by {
            if i < s.len() {
                assert(s.contains(s[i]));
            }
            if j < s.len() {
                assert(s.contains(s[j]));
            }
        }
    } else {
        assert(next =~= s);
    }
}

proof fn lemma_distinct_first(wanted: bool, f: Seq<char>)
    ensures
        distinct(request_if(wanted, f), set![f]),
{
    assert forall|x: Seq<char>| #[trigger] request_if(wanted, f).contains(x) implies set![f].contains(
        x,
    ) by {
        lemma_when_contains(wanted, f, x);
    }
}

proof fn lemma_add_distinct(s: Seq<Seq<char>>, t: Seq<Seq<char>>)
    requires
        s.no_duplicates(),
        t.no_duplicates(),
        forall|x: Seq<char>| s.contains(x) ==> !(#[trigger] t.contains(x)),
    ensures
        (s + t).no_duplicates(),
{
    let next = s + t;
    assert forall|i: int, j: int| 0 <= i < j < next.len() implies next[i] != next[j] by {
        if i < s.len() && j >= s.len() {
            assert(s.contains(s[i]));
            assert(t.contains(t[j - s.len()]));
        }
    }
}

proof fn lemma_engine_requests_distinct(ctx: CompilationContext, dynamic: bool)
    ensures
        engine_requests(ctx, dynamic).no_duplicates(),
{
    lemma_literals();
    let s0 = request_if(ctx.needs_wasm_runtime, "perry-runtime/wasm-host"@);
    let seen0 = set!["perry-runtime/wasm-host"@];
    lemma_distinct_first(ctx.needs_wasm_runtime, "perry-runtime/wasm-host"@);
    lemma_distinct_push(s0, seen0, ctx.uses_regex, "perry-runtime/regex-engine"@);
    let s1 = s0 + request_if(ctx.uses_regex, "perry-runtime/regex-engine"@);
    let seen1 = seen0.insert("perry-runtime/regex-engine"@);
    lemma_distinct_push(s1, seen1, ctx.uses_temporal, "perry-runtime/temporal"@);
    let s2 = s1 + request_if(ctx.uses_temporal, "perry-runtime/temporal"@);
    let seen2 = seen1.insert("perry-runtime/temporal"@);
    lemma_distinct_push(s2, seen2, ctx.uses_url, "perry-runtime/url-engine"@);
    let s3 = s2 + request_if(ctx.uses_url, "perry-runtime/url-engine"@);
    let seen3 = seen2.insert("perry-runtime/url-engine"@);
    lemma_distinct_push(s3, seen3, ctx.uses_string_normalize, "perry-runtime/string-normalize"@);
    let s4 = s3 + request_if(ctx.uses_string_normalize, "perry-runtime/string-normalize"@);
    let seen4 = seen3.insert("perry-runtime/string-normalize"@);
    lemma_distinct_push(s4, seen4, ctx.uses_intl_segmenter, "perry-runtime/intl-segmenter"@);
    let s5 = s4 + request_if(ctx.uses_intl_segmenter, "perry-runtime/intl-segmenter"@);
    let seen5 = seen4.insert("perry-runtime/intl-segmenter"@);
    lemma_distinct_push(s5, seen5, ctx.uses_intl_namespace || dynamic, "perry-runtime/intl-namespace"@);
}

proof fn lemma_global_requests_distinct(ctx: CompilationContext, dynamic: bool)
    ensures
        global_requests(ctx, dynamic).no_duplicates(),
{
    lemma_literals();
    let s0 = request_if(ctx.uses_global_math || dynamic, "perry-runtime/global-math"@);
    let seen0 = set!["perry-runtime/global-math"@];
    lemma_distinct_first(ctx.uses_global_math || dynamic, "perry-runtime/global-math"@);
    lemma_distinct_push(s0, seen0, ctx.uses_global_json || dynamic, "perry-runtime/global-json"@);
    let s1 = s0 + request_if(ctx.uses_global_json || dynamic, "perry-runtime/global-json"@);
    let seen1 = seen0.insert("perry-runtime/global-json"@);
    lemma_distinct_push(s1, seen1, ctx.uses_global_reflect || dynamic, "perry-runtime/global-reflect"@);
    let s2 = s1 + request_if(ctx.uses_global_reflect || dynamic, "perry-runtime/global-reflect"@);
    let seen2 = seen1.insert("perry-runtime/global-reflect"@);
    lemma_distinct_push(s2, seen2, ctx.uses_global_atomics || dynamic, "perry-runtime/global-atomics"@);
    let s3 = s2 + request_if(ctx.uses_global_atomics || dynamic, "perry-runtime/global-atomics"@);
    let seen3 = seen2.insert("perry-runtime/global-atomics"@);
    lemma_distinct_push(s3, seen3, ctx.uses_global_url || dynamic, "perry-runtime/global-url"@);
    let s4 = s3 + request_if(ctx.uses_global_url || dynamic, "perry-runtime/global-url"@);
    let seen4 = seen3.insert("perry-runtime/global-url"@);
    lemma_distinct_push(s4, seen4, ctx.uses_global_text || dynamic, "perry-runtime/global-text"@);
    let s5 = s4 + request_if(ctx.uses_global_text || dynamic, "perry-runtime/global-text"@);
    let seen5 = seen4.insert("perry-runtime/global-text"@);
    lemma_distinct_push(s5, seen5, ctx.uses_global_websocket || dynamic, "perry-runtime/global-websocket"@);
    let s6 = s5 + request_if(ctx.uses_global_websocket || dynamic, "perry-runtime/global-websocket"@);
    let seen6 = seen5.insert("perry-runtime/global-websocket"@);
    lemma_distinct_push(s6, seen6, ctx.uses_global_webcrypto || dynamic, "perry-runtime/global-webcrypto"@);
    let s7 = s6 + request_if(ctx.uses_global_webcrypto || dynamic, "perry-runtime/global-webcrypto"@);
    let seen7 = seen6.insert("perry-runtime/global-webcrypto"@);
    lemma_distinct_push(s7, seen7, ctx.uses_global_webfetch || dynamic, "perry-runtime/global-webfetch"@);
    let s8 = s7 + request_if(ctx.uses_global_webfetch || dynamic, "perry-runtime/global-webfetch"@);
    let seen8 = seen7.insert("perry-runtime/global-webfetch"@);
    lemma_distinct_push(s8, seen8, ctx.uses_proc_ipc || dynamic, "perry-runtime/proc-ipc"@);
}

proof fn lemma_closing_requests_distinct(ctx: CompilationContext, sites: CodegenSites, env: BuildEnv)
    ensures
        closing_requests(ctx, sites, env).no_duplicates(),
{
    lemma_literals();
    let generates = sites.deferred_dynamic_code || sites.known_codegen;
    let s0 = request_if(ctx.uses_intl_locale, "perry-runtime/intl-locale"@);
    let seen0 = set!["perry-runtime/intl-locale"@];
    lemma_distinct_first(ctx.uses_intl_locale, "perry-runtime/intl-locale"@);
    lemma_distinct_push(s0, seen0, ctx.uses_intl_datetime, "perry-runtime/intl-datetime"@);
    let s1 = s0 + request_if(ctx.uses_intl_datetime, "perry-runtime/intl-datetime"@);
    let seen1 = seen0.insert("perry-runtime/intl-datetime"@);
    lemma_distinct_push(s1, seen1, ctx.uses_diagnostics || context::gc_trace(env), "perry-runtime/diagnostics"@);
    let s2 = s1 + request_if(ctx.uses_diagnostics || context::gc_trace(env), "perry-runtime/diagnostics"@);
    let seen2 = seen1.insert("perry-runtime/diagnostics"@);
    lemma_distinct_push(s2, seen2, ctx.uses_dgram, "perry-runtime/mod-dgram"@);
    let s3 = s2 + request_if(ctx.uses_dgram, "perry-runtime/mod-dgram"@);
    let seen3 = seen2.insert("perry-runtime/mod-dgram"@);
    lemma_distinct_push(s3, seen3, context::http2_gate(ctx), "perry-runtime/mod-http2-constants"@);
    let s4 = s3 + request_if(context::http2_gate(ctx), "perry-runtime/mod-http2-constants"@);
    let seen4 = seen3.insert("perry-runtime/mod-http2-constants"@);
    lemma_distinct_push(s4, seen4, generates, "perry-runtime/dyn-eval"@);
    let s5 = s4 + request_if(generates, "perry-runtime/dyn-eval"@);
    let seen5 = seen4.insert("perry-runtime/dyn-eval"@);
    lemma_distinct_push(s5, seen5, generates && !ctx.uses_regex, "perry-runtime/regex-engine"@);
    let s6 = s5 + request_if(generates && !ctx.uses_regex, "perry-runtime/regex-engine"@);
    let seen6 = seen5.insert("perry-runtime/regex-engine"@);
    lemma_distinct_push(s6, seen6, true, "perry-runtime/alloc-mimalloc"@);
    let s7 = s6 + request_if(true, "perry-runtime/alloc-mimalloc"@);
    let seen7 = seen6.insert("perry-runtime/alloc-mimalloc"@);
    lemma_distinct_push(s7, seen7, context::bitcode_link(env), "perry-runtime/keepalive-anchors"@);
    let s8 = s7 + request_if(context::bitcode_link(env), "perry-runtime/keepalive-anchors"@);
    let seen8 = seen7.insert("perry-runtime/keepalive-anchors"@);
    lemma_distinct_push(s8, seen8, ctx.uses_fetch, "perry-runtime/external-fetch-symbols"@);
}

proof fn lemma_lists_distinct(features: Set<Seq<char>>, cli_features: Seq<Seq<char>>)
    requires
        features.finite(),
        cli_features.filter(|f: Seq<char>| targets_runtime(f)).no_duplicates(),
    ensures
        stdlib_requests(name_set::in_order(features)).no_duplicates(),
        cli_requests(cli_features).no_duplicates(),
        forall|x: Seq<char>|
            stdlib_requests(name_set::in_order(features)).contains(x) ==> !(
            #[trigger] cli_requests(cli_features).contains(x)),
{
    reveal_strlit("perry-stdlib/");
    reveal_strlit("perry-runtime/");
    name_set::lemma_listing_exists(features);
    let names = name_set::in_order(features);
    let std = stdlib_requests(names);
    assert forall|i: int, j: int| 0 <= i < j < std.len() implies std[i] != std[j] by {
        if std[i] == std[j] {
            text::lemma_cancel_start("perry-stdlib/"@, names[i], names[j]);
        }
    }
    let wanted = |f: Seq<char>| targets_runtime(f);
    let picked = cli_features.filter(wanted);
    let cli = cli_requests(cli_features);
    assert forall|i: int, j: int| 0 <= i < j < cli.len() implies cli[i] != cli[j] by {
        if cli[i] == cli[j] {
            text::lemma_cancel_start("perry-runtime/"@, picked[i], picked[j]);
        }
    }
    assert forall|x: Seq<char>| std.contains(x) implies !(#[trigger] cli.contains(x)) by {
        let i = std.index_of(x);
        assert(x == "perry-stdlib/"@ + names[i]);
        assert(x[6] == 's');
        if cli.contains(x) {
            let j = cli.index_of(x);
            assert(x == "perry-runtime/"@ + picked[j]);
            assert(x[6] == 'r');
        }
    }
}

/// No feature is requested twice, where the command line names none that targets
/// the runtime twice. The regex engine, which two reasons may call for, is
/// requested for the first.
pub proof fn law_no_feature_is_requested_twice(
    ctx: CompilationContext,
    features: Set<Seq<char>>,
    cli_features: Seq<Seq<char>>,
    sites: CodegenSites,
    env: BuildEnv,
)
    requires
        features.finite(),
        cli_features.filter(|f: Seq<char>| targets_runtime(f)).no_duplicates(),
    ensures
        cross_features(ctx, features, cli_features, sites, env).no_duplicates(),
{
    let dynamic = sites.deferred_dynamic_code;
    let g0 = request_if(true, "perry-runtime/full"@);
    let g1 = stdlib_requests(name_set::in_order(features));
    let g2 = cli_requests(cli_features);
    let g3 = engine_requests(ctx, dynamic);
    let g4 = global_requests(ctx, dynamic);
    let g5 = closing_requests(ctx, sites, env);
    lemma_lists_distinct(features, cli_features);
    lemma_engine_requests_distinct(ctx, dynamic);
    lemma_global_requests_distinct(ctx, dynamic);
    lemma_closing_requests_distinct(ctx, sites, env);
    assert forall|x: Seq<char>| group_of_one(ctx, features, cli_features, sites, env, x) by {
        lemma_one_group(ctx, features, cli_features, sites, env, x);
    }
    assert forall|x: Seq<char>| g0.contains(x) implies !(#[trigger] g1.contains(x)) by {
        assert(group_of_one(ctx, features, cli_features, sites, env, x));
    }
    lemma_add_distinct(g0, g1);
    assert forall|x: Seq<char>| (g0 + g1).contains(x) implies !(#[trigger] g2.contains(x)) by {
        assert(group_of_one(ctx, features, cli_features, sites, env, x));
        lemma_add_contains(g0, g1, x);
    }
    lemma_add_distinct(g0 + g1, g2);
    assert forall|x: Seq<char>| (g0 + g1 + g2).contains(x) implies !(#[trigger] g3.contains(x)) by {
        assert(group_of_one(ctx, features, cli_features, sites, env, x));
        lemma_add_contains(g0, g1, x);
        lemma_add_contains(g0 + g1, g2, x);
    }
    lemma_add_distinct(g0 + g1 + g2, g3);
    assert forall|x: Seq<char>| (g0 + g1 + g2 + g3).contains(x) implies !(
    #[trigger] g4.contains(x)) by {
        assert(group_of_one(ctx, features, cli_features, sites, env, x));
        lemma_add_contains(g0, g1, x);
        lemma_add_contains(g0 + g1, g2, x);
        lemma_add_contains(g0 + g1 + g2, g3, x);
    }
    lemma_add_distinct(g0 + g1 + g2 + g3, g4);
    assert forall|x: Seq<char>| (g0 + g1 + g2 + g3 + g4).contains(x) implies !(
    #[trigger] g5.contains(x)) by {
        assert(group_of_one(ctx, features, cli_features, sites, env, x));
        lemma_add_contains(g0, g1, x);
        lemma_add_contains(g0 + g1, g2, x);
        lemma_add_contains(g0 + g1 + g2, g3, x);
        lemma_add_contains(g0 + g1 + g2 + g3, g4, x);
    }
    lemma_add_distinct(g0 + g1 + g2 + g3 + g4, g5);
}

/// Whether no two groups of requests hold `x`.
spec fn group_of_one(
    ctx: CompilationContext,
    features: Set<Seq<char>>,
    cli_features: Seq<Seq<char>>,
    sites: CodegenSites,
    env: BuildEnv,
    x: Seq<char>,
) -> bool {
    let full = request_if(true, "perry-runtime/full"@).contains(x);
    let std = stdlib_requests(name_set::in_order(features)).contains(x);
    let cli = cli_requests(cli_features).contains(x);
    let engine = engine_requests(ctx, sites.deferred_dynamic_code).contains(x);
    let global = global_requests(ctx, sites.deferred_dynamic_code).contains(x);
    let closing = closing_requests(ctx, sites, env).contains(x);
    &&& full ==> !std && !cli && !engine && !global && !closing
    &&& std ==> !cli && !engine && !global && !closing
    &&& cli ==> !engine && !global && !closing
    &&& engine ==> !global && !closing
    &&& global ==> !closing
}

proof fn lemma_one_group(
    ctx: CompilationContext,
    features: Set<Seq<char>>,
    cli_features: Seq<Seq<char>>,
    sites: CodegenSites,
    env: BuildEnv,
    x: Seq<char>,
)
    requires
        features.finite(),
        cli_features.filter(|f: Seq<char>| targets_runtime(f)).no_duplicates(),
    ensures
        group_of_one(ctx, features, cli_features, sites, env, x),
{
    lemma_literals();
    lemma_lists_distinct(features, cli_features);
    lemma_when_contains(true, "perry-runtime/full"@, x);
    lemma_engine_requests(ctx, sites.deferred_dynamic_code, x);
    lemma_global_requests(ctx, sites.deferred_dynamic_code, x);
    lemma_closing_requests(ctx, sites, env, x);
    if from_lists(features, cli_features, x) {
        lemma_from_lists(features, cli_features, x);
    }
}

/// Each feature of the stdlib is requested of it, and no other feature is.
pub proof fn law_stdlib_features_are_requested(
    ctx: CompilationContext,
    features: Set<Seq<char>>,
    cli_features: Seq<Seq<char>>,
    sites: CodegenSites,
    env: BuildEnv,
    f: Seq<char>,
)
    requires
        features.finite(),
    ensures
        cross_features(ctx, features, cli_features, sites, env).contains("perry-stdlib/"@ + f)
            <==> features.contains(f),
{
    let x = "perry-stdlib/"@ + f;
    let names = name_set::in_order(features);
    let std = stdlib_requests(names);
    name_set::lemma_listing_exists(features);
    reveal_strlit("perry-stdlib/");
    reveal_strlit("perry-runtime/");
    assert(x[6] == 's');
    lemma_gates(ctx, features, cli_features, sites, env, x);
    lemma_literals();
    if features.contains(f) {
        assert(names.contains(f));
        assert(std[names.index_of(f)] == x);
    }
    if std.contains(x) {
        let i = std.index_of(x);
        text::lemma_cancel_start("perry-stdlib/"@, f, names[i]);
        assert(names.contains(names[i]));
    }
    if cli_requests(cli_features).contains(x) {
        let picked = cli_features.filter(|f: Seq<char>| targets_runtime(f));
        let i = cli_requests(cli_features).index_of(x);
        assert(x == "perry-runtime/"@ + picked[i]);
        assert(x[6] == 'r');
    }
}

/// A game-loop or OHOS feature of the command line is requested of the runtime,
/// if and only if the command line names it.
pub proof fn law_cli_features_are_requested(
    ctx: CompilationContext,
    features: Set<Seq<char>>,
    cli_features: Seq<Seq<char>>,
    sites: CodegenSites,
    env: BuildEnv,
    f: Seq<char>,
)
    requires
        f == "ios-game-loop"@ || f == "watchos-game-loop"@ || f == "ohos-napi"@,
    ensures
        cross_features(ctx, features, cli_features, sites, env).contains("perry-runtime/"@ + f)
            <==> cli_features.contains(f),
{
    let x = "perry-runtime/"@ + f;
    let wanted = |f: Seq<char>| targets_runtime(f);
    let picked = cli_features.filter(wanted);
    let cli = cli_requests(cli_features);
    reveal_strlit("perry-stdlib/");
    reveal_strlit("perry-runtime/");
    reveal_strlit("ios-game-loop");
    reveal_strlit("watchos-game-loop");
    reveal_strlit("ohos-napi");
    assert(x.len() == 14 + f.len());
    assert(x[6] == 'r');
    assert(x[14] == f[0]);
    if f.len() > 10 {
        assert(x[24] == f[10]);
    }
    lemma_gates(ctx, features, cli_features, sites, env, x);
    lemma_literals();
    text::lemma_filter_membership(cli_features, wanted, f);
    if cli_features.contains(f) {
        assert(picked.contains(f));
        assert(cli[picked.index_of(f)] == x);
    }
    if cli.contains(x) {
        let i = cli.index_of(x);
        text::lemma_cancel_start("perry-runtime/"@, f, picked[i]);
        assert(picked.contains(picked[i]));
    }
    if stdlib_requests(name_set::in_order(features)).contains(x) {
        let i = stdlib_requests(name_set::in_order(features)).index_of(x);
        assert(x == "perry-stdlib/"@ + name_set::in_order(features)[i]);
        assert(x[6] == 's');
    }
}

/// Whether `x` is a request that the program, its environment or the build itself
/// may make of the runtime.
pub open spec fn is_gated_request(x: Seq<char>) -> bool {
    ||| x == "perry-runtime/full"@
    ||| x == "perry-runtime/wasm-host"@
    ||| x == "perry-runtime/regex-engine"@
    ||| x == "perry-runtime/temporal"@
    ||| x == "perry-runtime/url-engine"@
    ||| x == "perry-runtime/string-normalize"@
    ||| x == "perry-runtime/intl-segmenter"@
    ||| x == "perry-runtime/intl-namespace"@
    ||| x == "perry-runtime/global-math"@
    ||| x == "perry-runtime/global-json"@
    ||| x == "perry-runtime/global-reflect"@
    ||| x == "perry-runtime/global-atomics"@
    ||| x == "perry-runtime/global-url"@
    ||| x == "perry-runtime/global-text"@
    ||| x == "perry-runtime/global-websocket"@
    ||| x == "perry-runtime/global-webcrypto"@
    ||| x == "perry-runtime/global-webfetch"@
    ||| x == "perry-runtime/proc-ipc"@
    ||| x == "perry-runtime/intl-locale"@
    ||| x == "perry-runtime/intl-datetime"@
    ||| x == "perry-runtime/diagnostics"@
    ||| x == "perry-runtime/mod-dgram"@
    ||| x == "perry-runtime/mod-http2-constants"@
    ||| x == "perry-runtime/dyn-eval"@
    ||| x == "perry-runtime/alloc-mimalloc"@
    ||| x == "perry-runtime/keepalive-anchors"@
    ||| x == "perry-runtime/external-fetch-symbols"@
}

/// Nothing else is requested: every request is for a feature of the stdlib that
/// was asked for, for a feature of the command line that targets the runtime, or
/// for one of the features that are gated.
pub proof fn law_nothing_else_is_requested(
    ctx: CompilationContext,
    features: Set<Seq<char>>,
    cli_features: Seq<Seq<char>>,
    sites: CodegenSites,
    env: BuildEnv,
    x: Seq<char>,
)
    requires
        features.finite(),
        cross_features(ctx, features, cli_features, sites, env).contains(x),
    ensures
        ({
            ||| is_gated_request(x)
            ||| exists|f: Seq<char>|
                features.contains(f) && x == #[trigger] ("perry-stdlib/"@ + f)
            ||| exists|f: Seq<char>|
                cli_features.contains(f) && (f == "ios-game-loop"@ || f == "watchos-game-loop"@
                    || f == "ohos-napi"@) && x == #[trigger] ("perry-runtime/"@ + f)
        }),
{
    lemma_gates(ctx, features, cli_features, sites, env, x);
    let names = name_set::in_order(features);
    name_set::lemma_listing_exists(features);
    if stdlib_requests(names).contains(x) {
        let i = stdlib_requests(names).index_of(x);
        assert(names.contains(names[i]));
        assert(features.contains(names[i]) && x == "perry-stdlib/"@ + names[i]);
    }
    if cli_requests(cli_features).contains(x) {
        let wanted = |f: Seq<char>| targets_runtime(f);
        let picked = cli_features.filter(wanted);
        let i = cli_requests(cli_features).index_of(x);
        assert(picked.contains(picked[i]));
        text::lemma_filter_membership(cli_features, wanted, picked[i]);
        assert(cli_features.contains(picked[i]) && x == "perry-runtime/"@ + picked[i]);
    }
}

/// The place of a gated request among the others. The regex engine stands among
/// the engines where the program uses it, and behind the interpreter otherwise.
pub open spec fn place(ctx: CompilationContext, x: Seq<char>) -> int {
    if x == "perry-runtime/wasm-host"@ {
        1
    } else if x == "perry-runtime/regex-engine"@ {
        if ctx.uses_regex {
            2
        } else {
            24
        }
    } else if x == "perry-runtime/temporal"@ {
        3
    } else if x == "perry-runtime/url-engine"@ {
        4
    } else if x == "perry-runtime/string-normalize"@ {
        5
    } else if x == "perry-runtime/intl-segmenter"@ {
        6
    } else if x == "perry-runtime/intl-namespace"@ {
        7
    } else if x == "perry-runtime/global-math"@ {
        8
    } else if x == "perry-runtime/global-json"@ {
        9
    } else if x == "perry-runtime/global-reflect"@ {
        10
    } else if x == "perry-runtime/global-atomics"@ {
        11
    } else if x == "perry-runtime/global-url"@ {
        12
    } else if x == "perry-runtime/global-text"@ {
        13
    } else if x == "perry-runtime/global-websocket"@ {
        14
    } else if x == "perry-runtime/global-webcrypto"@ {
        15
    } else if x == "perry-runtime/global-webfetch"@ {
        16
    } else if x == "perry-runtime/proc-ipc"@ {
        17
    } else if x == "perry-runtime/intl-locale"@ {
        18
    } else if x == "perry-runtime/intl-datetime"@ {
        19
    } else if x == "perry-runtime/diagnostics"@ {
        20
    } else if x == "perry-runtime/mod-dgram"@ {
        21
    } else if x == "perry-runtime/mod-http2-constants"@ {
        22
    } else if x == "perry-runtime/dyn-eval"@ {
        23
    } else if x == "perry-runtime/alloc-mimalloc"@ {
        25
    } else if x == "perry-runtime/keepalive-anchors"@ {
        26
    } else if x == "perry-runtime/external-fetch-symbols"@ {
        27
    } else {
        0
    }
}

/// Whether the requests `s` stand in their places, from `lo` on and before `hi`.
spec fn placed(s: Seq<Seq<char>>, ctx: CompilationContext, lo: int, hi: int) -> bool {
    &&& forall|i: int| 0 <= i < s.len() ==> lo <= place(ctx, #[trigger] s[i]) < hi
    &&& forall|i: int, j: int|
        0 <= i < j < s.len() ==> place(ctx, #[trigger] s[i]) < place(ctx, #[trigger] s[j])
}

proof fn lemma_placed_push(
    s: Seq<Seq<char>>,
    ctx: CompilationContext,
    lo: int,
    r: int,
    wanted: bool,
    f: Seq<char>,
)
    requires
        placed(s, ctx, lo, r),
        lo <= r,
        wanted ==> place(ctx, f) == r,
    ensures
        placed(s + request_if(wanted, f), ctx, lo, r + 1),
{
    let t = s + request_if(wanted, f);
    if wanted {
        assert(t =~= s.push(f));
    } else {
        assert(t =~= s);
    }
    assert forall|i: int| 0 <= i < t.len() implies lo <= place(ctx, #[trigger] t[i]) < r + 1 by {
        if i < s.len() {
            assert(t[i] == s[i]);
        }
    }
    assert forall|i: int, j: int| 0 <= i < j < t.len() implies place(ctx, #[trigger] t[i]) < place(
        ctx,
        #[trigger] t[j],
    ) by {
        assert(t[i] == s[i]);
        if j < s.len() {
            assert(t[j] == s[j]);
        }
    }
}

proof fn lemma_placed_add(
    s: Seq<Seq<char>>,
    t: Seq<Seq<char>>,
    ctx: CompilationContext,
    lo: int,
    mid: int,
    hi: int,
)
    requires
        placed(s, ctx, lo, mid),
        placed(t, ctx, mid, hi),
        lo <= mid <= hi,
    ensures
        placed(s + t, ctx, lo, hi),
{
    let all = s + t;
    assert forall|i: int| 0 <= i < all.len() implies lo <= place(ctx, #[trigger] all[i]) < hi by {
        if i < s.len() {
            assert(all[i] == s[i]);
        } else {
            assert(all[i] == t[i - s.len()]);
        }
    }
    assert forall|i: int, j: int| 0 <= i < j < all.len() implies place(ctx, #[trigger] all[i])
        < place(ctx, #[trigger] all[j]) by {
        if j < s.len() {
            assert(all[i] == s[i] && all[j] == s[j]);
        } else if i >= s.len() {
            assert(all[i] == t[i - s.len()] && all[j] == t[j - s.len()]);
        } else {
            assert(all[i] == s[i] && all[j] == t[j - s.len()]);
        }
    }
}

proof fn lemma_engine_places(ctx: CompilationContext)
    ensures
        place(ctx, "perry-runtime/wasm-host"@) == 1,
        ctx.uses_regex ==> place(ctx, "perry-runtime/regex-engine"@) == 2,
        place(ctx, "perry-runtime/temporal"@) == 3,
        place(ctx, "perry-runtime/url-engine"@) == 4,
        place(ctx, "perry-runtime/string-normalize"@) == 5,
        place(ctx, "perry-runtime/intl-segmenter"@) == 6,
        place(ctx, "perry-runtime/intl-namespace"@) == 7,
{
    lemma_literals();
}

proof fn lemma_engine_requests_placed(ctx: CompilationContext, dynamic: bool)
    ensures
        placed(engine_requests(ctx, dynamic), ctx, 1, 8),
{
    lemma_engine_places(ctx);
    let none = Seq::<Seq<char>>::empty();
    let s0 = request_if(ctx.needs_wasm_runtime, "perry-runtime/wasm-host"@);
    lemma_placed_push(none, ctx, 1, 1, ctx.needs_wasm_runtime, "perry-runtime/wasm-host"@);
    assert(none + s0 =~= s0);
    let s1 = s0 + request_if(ctx.uses_regex, "perry-runtime/regex-engine"@);
    lemma_placed_push(s0, ctx, 1, 2, ctx.uses_regex, "perry-runtime/regex-engine"@);
    let s2 = s1 + request_if(ctx.uses_temporal, "perry-runtime/temporal"@);
    lemma_placed_push(s1, ctx, 1, 3, ctx.uses_temporal, "perry-runtime/temporal"@);
    let s3 = s2 + request_if(ctx.uses_url, "perry-runtime/url-engine"@);
    lemma_placed_push(s2, ctx, 1, 4, ctx.uses_url, "perry-runtime/url-engine"@);
    let s4 = s3 + request_if(ctx.uses_string_normalize, "perry-runtime/string-normalize"@);
    lemma_placed_push(s3, ctx, 1, 5, ctx.uses_string_normalize, "perry-runtime/string-normalize"@);
    let s5 = s4 + request_if(ctx.uses_intl_segmenter, "perry-runtime/intl-segmenter"@);
    lemma_placed_push(s4, ctx, 1, 6, ctx.uses_intl_segmenter, "perry-runtime/intl-segmenter"@);
    lemma_placed_push(s5, ctx, 1, 7, ctx.uses_intl_namespace || dynamic, "perry-runtime/intl-namespace"@);
}

proof fn lemma_global_places(ctx: CompilationContext)
    ensures
        place(ctx, "perry-runtime/global-math"@) == 8,
        place(ctx, "perry-runtime/global-json"@) == 9,
        place(ctx, "perry-runtime/global-reflect"@) == 10,
        place(ctx, "perry-runtime/global-atomics"@) == 11,
        place(ctx, "perry-runtime/global-url"@) == 12,
        place(ctx, "perry-runtime/global-text"@) == 13,
        place(ctx, "perry-runtime/global-websocket"@) == 14,
        place(ctx, "perry-runtime/global-webcrypto"@) == 15,
        place(ctx, "perry-runtime/global-webfetch"@) == 16,
        place(ctx, "perry-runtime/proc-ipc"@) == 17,
{
    lemma_literals();
}

proof fn lemma_global_requests_placed(ctx: CompilationContext, dynamic: bool)
    ensures
        placed(global_requests(ctx, dynamic), ctx, 8, 18),
{
    lemma_global_places(ctx);
    let none = Seq::<Seq<char>>::empty();
    let s0 = request_if(ctx.uses_global_math || dynamic, "perry-runtime/global-math"@);
    lemma_placed_push(none, ctx, 8, 8, ctx.uses_global_math || dynamic, "perry-runtime/global-math"@);
    assert(none + s0 =~= s0);
    let s1 = s0 + request_if(ctx.uses_global_json || dynamic, "perry-runtime/global-json"@);
    lemma_placed_push(s0, ctx, 8, 9, ctx.uses_global_json || dynamic, "perry-runtime/global-json"@);
    let s2 = s1 + request_if(ctx.uses_global_reflect || dynamic, "perry-runtime/global-reflect"@);
    lemma_placed_push(s1, ctx, 8, 10, ctx.uses_global_reflect || dynamic, "perry-runtime/global-reflect"@);
    let s3 = s2 + request_if(ctx.uses_global_atomics || dynamic, "perry-runtime/global-atomics"@);
    lemma_placed_push(s2, ctx, 8, 11, ctx.uses_global_atomics || dynamic, "perry-runtime/global-atomics"@);
    let s4 = s3 + request_if(ctx.uses_global_url || dynamic, "perry-runtime/global-url"@);
    lemma_placed_push(s3, ctx, 8, 12, ctx.uses_global_url || dynamic, "perry-runtime/global-url"@);
    let s5 = s4 + request_if(ctx.uses_global_text || dynamic, "perry-runtime/global-text"@);
    lemma_placed_push(s4, ctx, 8, 13, ctx.uses_global_text || dynamic, "perry-runtime/global-text"@);
    let s6 = s5 + request_if(ctx.uses_global_websocket || dynamic, "perry-runtime/global-websocket"@);
    lemma_placed_push(s5, ctx, 8, 14, ctx.uses_global_websocket || dynamic, "perry-runtime/global-websocket"@);
    let s7 = s6 + request_if(ctx.uses_global_webcrypto || dynamic, "perry-runtime/global-webcrypto"@);
    lemma_placed_push(s6, ctx, 8, 15, ctx.uses_global_webcrypto || dynamic, "perry-runtime/global-webcrypto"@);
    let s8 = s7 + request_if(ctx.uses_global_webfetch || dynamic, "perry-runtime/global-webfetch"@);
    lemma_placed_push(s7, ctx, 8, 16, ctx.uses_global_webfetch || dynamic, "perry-runtime/global-webfetch"@);
    lemma_placed_push(s8, ctx, 8, 17, ctx.uses_proc_ipc || dynamic, "perry-runtime/proc-ipc"@);
}

proof fn lemma_closing_places(ctx: CompilationContext)
    ensures
        place(ctx, "perry-runtime/intl-locale"@) == 18,
        place(ctx, "perry-runtime/intl-datetime"@) == 19,
        place(ctx, "perry-runtime/diagnostics"@) == 20,
        place(ctx, "perry-runtime/mod-dgram"@) == 21,
        place(ctx, "perry-runtime/mod-http2-constants"@) == 22,
        place(ctx, "perry-runtime/dyn-eval"@) == 23,
        !ctx.uses_regex ==> place(ctx, "perry-runtime/regex-engine"@) == 24,
        place(ctx, "perry-runtime/alloc-mimalloc"@) == 25,
        place(ctx, "perry-runtime/keepalive-anchors"@) == 26,
        place(ctx, "perry-runtime/external-fetch-symbols"@) == 27,
{
    lemma_literals();
}

proof fn lemma_closing_requests_placed(ctx: CompilationContext, sites: CodegenSites, env: BuildEnv)
    ensures
        placed(closing_requests(ctx, sites, env), ctx, 18, 28),
{
    lemma_closing_places(ctx);
    let generates = sites.deferred_dynamic_code || sites.known_codegen;
    let none = Seq::<Seq<char>>::empty();
    let s0 = request_if(ctx.uses_intl_locale, "perry-runtime/intl-locale"@);
    lemma_placed_push(none, ctx, 18, 18, ctx.uses_intl_locale, "perry-runtime/intl-locale"@);
    assert(none + s0 =~= s0);
    let s1 = s0 + request_if(ctx.uses_intl_datetime, "perry-runtime/intl-datetime"@);
    lemma_placed_push(s0, ctx, 18, 19, ctx.uses_intl_datetime, "perry-runtime/intl-datetime"@);
    let s2 = s1 + request_if(ctx.uses_diagnostics || context::gc_trace(env), "perry-runtime/diagnostics"@);
    lemma_placed_push(s1, ctx, 18, 20, ctx.uses_diagnostics || context::gc_trace(env), "perry-runtime/diagnostics"@);
    let s3 = s2 + request_if(ctx.uses_dgram, "perry-runtime/mod-dgram"@);
    lemma_placed_push(s2, ctx, 18, 21, ctx.uses_dgram, "perry-runtime/mod-dgram"@);
    let s4 = s3 + request_if(context::http2_gate(ctx), "perry-runtime/mod-http2-constants"@);
    lemma_placed_push(s3, ctx, 18, 22, context::http2_gate(ctx), "perry-runtime/mod-http2-constants"@);
    let s5 = s4 + request_if(generates, "perry-runtime/dyn-eval"@);
    lemma_placed_push(s4, ctx, 18, 23, generates, "perry-runtime/dyn-eval"@);
    let s6 = s5 + request_if(generates && !ctx.uses_regex, "perry-runtime/regex-engine"@);
    lemma_placed_push(s5, ctx, 18, 24, generates && !ctx.uses_regex, "perry-runtime/regex-engine"@);
    let s7 = s6 + request_if(true, "perry-runtime/alloc-mimalloc"@);
    lemma_placed_push(s6, ctx, 18, 25, true, "perry-runtime/alloc-mimalloc"@);
    let s8 = s7 + request_if(context::bitcode_link(env), "perry-runtime/keepalive-anchors"@);
    lemma_placed_push(s7, ctx, 18, 26, context::bitcode_link(env), "perry-runtime/keepalive-anchors"@);
    lemma_placed_push(s8, ctx, 18, 27, ctx.uses_fetch, "perry-runtime/external-fetch-symbols"@);
}

/// The requests stand in order: the full runtime, the features of the stdlib in
/// the order of their names, those of the command line in its order, and what is
/// gated, each in its place.
pub proof fn law_requests_stand_in_order(
    ctx: CompilationContext,
    features: Set<Seq<char>>,
    cli_features: Seq<Seq<char>>,
    sites: CodegenSites,
    env: BuildEnv,
)
    requires
        features.finite(),
    ensures
        ({
            let all = cross_features(ctx, features, cli_features, sites, env);
            let names = name_set::in_order(features);
            let picked = cli_features.filter(
                |f: Seq<char>|
                    f == "ios-game-loop"@ || f == "watchos-game-loop"@ || f == "ohos-napi"@,
            );
            let n = names.len();
            let m = n + picked.len();
            &&& all.len() > m
            &&& all[0] == "perry-runtime/full"@
            &&& forall|i: int| 0 <= i < n ==> all[1 + i] == "perry-stdlib/"@ + #[trigger] names[i]
            &&& forall|i: int|
                0 <= i < picked.len() ==> all[1 + n + i] == "perry-runtime/"@
                    + #[trigger] picked[i]
            &&& forall|i: int|
                m < i < all.len() ==> is_gated_request(#[trigger] all[i]) && all[i]
                    != "perry-runtime/full"@
            &&& forall|i: int, j: int|
                m < i < j < all.len() ==> place(ctx, #[trigger] all[i]) < place(
                    ctx,
                    #[trigger] all[j],
                )
        }),
{
    let names = name_set::in_order(features);
    let literal = |f: Seq<char>|
        f == "ios-game-loop"@ || f == "watchos-game-loop"@ || f == "ohos-napi"@;
    let wanted = |f: Seq<char>| targets_runtime(f);
    assert(literal =~= wanted);
    let picked = cli_features.filter(literal);
    let rest = engine_requests(ctx, sites.deferred_dynamic_code) + global_requests(
        ctx,
        sites.deferred_dynamic_code,
    ) + closing_requests(ctx, sites, env);
    lemma_gated_requests(ctx, sites, env);
    lemma_regroup(
        request_if(true, "perry-runtime/full"@),
        stdlib_requests(names),
        cli_requests(cli_features),
        engine_requests(ctx, sites.deferred_dynamic_code),
        global_requests(ctx, sites.deferred_dynamic_code),
        closing_requests(ctx, sites, env),
    );
    lemma_groups(ctx, names, picked, rest);
}

proof fn lemma_gated_requests(ctx: CompilationContext, sites: CodegenSites, env: BuildEnv)
    ensures
        ({
            let rest = engine_requests(ctx, sites.deferred_dynamic_code) + global_requests(
                ctx,
                sites.deferred_dynamic_code,
            ) + closing_requests(ctx, sites, env);
            &&& rest.len() > 0
            &&& placed(rest, ctx, 1, 28)
            &&& forall|i: int| 0 <= i < rest.len() ==> is_gated_request(#[trigger] rest[i])
            &&& forall|i: int| 0 <= i < rest.len() ==> #[trigger] rest[i] != "perry-runtime/full"@
        }),
{
    let dynamic = sites.deferred_dynamic_code;
    let e = engine_requests(ctx, dynamic);
    let g = global_requests(ctx, dynamic);
    let c = closing_requests(ctx, sites, env);
    lemma_engine_requests_placed(ctx, dynamic);
    lemma_global_requests_placed(ctx, dynamic);
    lemma_closing_requests_placed(ctx, sites, env);
    lemma_placed_add(e, g, ctx, 1, 8, 18);
    lemma_placed_add(e + g, c, ctx, 1, 18, 28);
    lemma_closing_requests(ctx, sites, env, "perry-runtime/alloc-mimalloc"@);
    assert(c.contains("perry-runtime/alloc-mimalloc"@));
    assert(c[c.index_of("perry-runtime/alloc-mimalloc"@)] == "perry-runtime/alloc-mimalloc"@);
    let rest = e + g + c;
    assert forall|i: int| 0 <= i < rest.len() implies is_gated_request(#[trigger] rest[i])
        && rest[i] != "perry-runtime/full"@ by {
        lemma_gated_request(ctx, sites, env, rest[i]);
    }
}

proof fn lemma_gated_request(
    ctx: CompilationContext,
    sites: CodegenSites,
    env: BuildEnv,
    x: Seq<char>,
)
    requires
        (engine_requests(ctx, sites.deferred_dynamic_code) + global_requests(
            ctx,
            sites.deferred_dynamic_code,
        ) + closing_requests(ctx, sites, env)).contains(x),
    ensures
        is_gated_request(x),
        x != "perry-runtime/full"@,
{
    let dynamic = sites.deferred_dynamic_code;
    let e = engine_requests(ctx, dynamic);
    let g = global_requests(ctx, dynamic);
    lemma_add_contains(e + g, closing_requests(ctx, sites, env), x);
    lemma_add_contains(e, g, x);
    lemma_engine_requests(ctx, dynamic, x);
    lemma_global_requests(ctx, dynamic, x);
    lemma_closing_requests(ctx, sites, env, x);
    lemma_literals();
}

proof fn lemma_groups(
    ctx: CompilationContext,
    names: Seq<Seq<char>>,
    picked: Seq<Seq<char>>,
    rest: Seq<Seq<char>>,
)
    requires
        rest.len() > 0,
        placed(rest, ctx, 1, 28),
        forall|i: int| 0 <= i < rest.len() ==> is_gated_request(#[trigger] rest[i]),
        forall|i: int| 0 <= i < rest.len() ==> #[trigger] rest[i] != "perry-runtime/full"@,
    ensures
        ({
            let all = request_if(true, "perry-runtime/full"@) + stdlib_requests(names)
                + picked.map_values(|f: Seq<char>| "perry-runtime/"@ + f) + rest;
            let n = names.len();
            let m = n + picked.len();
            &&& all.len() > m
            &&& all[0] == "perry-runtime/full"@
            &&& forall|i: int| 0 <= i < n ==> all[1 + i] == "perry-stdlib/"@ + #[trigger] names[i]
            &&& forall|i: int|
                0 <= i < picked.len() ==> all[1 + n + i] == "perry-runtime/"@
                    + #[trigger] picked[i]
            &&& forall|i: int|
                m < i < all.len() ==> is_gated_request(#[trigger] all[i]) && all[i]
                    != "perry-runtime/full"@
            &&& forall|i: int, j: int|
                m < i < j < all.len() ==> place(ctx, #[trigger] all[i]) < place(
                    ctx,
                    #[trigger] all[j],
                )
        }),
{
    let g0 = request_if(true, "perry-runtime/full"@);
    let g1 = stdlib_requests(names);
    let g2 = picked.map_values(|f: Seq<char>| "perry-runtime/"@ + f);
    let all = g0 + g1 + g2 + rest;
    let n = names.len();
    let m = n + picked.len();
    assert(g0.len() == 1 && g1.len() == n && g2.len() == picked.len());
    assert(all.len() == 1 + m + rest.len());
    assert(all[0] == g0[0]);
    assert forall|i: int| 0 <= i < n implies all[1 + i] == "perry-stdlib/"@ + #[trigger] names[
        i
    ] by {
        assert(all[1 + i] == g1[i]);
    }
    assert forall|i: int| 0 <= i < picked.len() implies all[1 + n + i] == "perry-runtime/"@
        + #[trigger] picked[i] by {
        assert(all[1 + n + i] == g2[i]);
    }
    assert forall|i: int| m < i < all.len() implies is_gated_request(#[trigger] all[i]) && all[i]
        != "perry-runtime/full"@ by {
        assert(all[i] == rest[i - 1 - m]);
    }
    assert forall|i: int, j: int| m < i < j < all.len() implies place(ctx, #[trigger] all[i])
        < place(ctx, #[trigger] all[j]) by {
        assert(all[i] == rest[i - 1 - m]);
        assert(all[j] == rest[j - 1 - m]);
    }
}

proof fn lemma_regroup(
    a: Seq<Seq<char>>,
    b: Seq<Seq<char>>,
    c: Seq<Seq<char>>,
    d: Seq<Seq<char>>,
    e: Seq<Seq<char>>,
    f: Seq<Seq<char>>,
)
    ensures
        a + b + c + d + e + f == a + b + c + (d + e + f),
{
    assert(a + b + c + d + e + f =~= a + b + c + (d + e + f));
}

} // verus!
