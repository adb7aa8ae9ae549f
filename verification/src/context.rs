//! What a build is made for: the needs of the program, the dynamic code found
//! in it, and the settings of the environment.
use crate::name_set::NameSet;
use crate::text;
use crate::text::str_eq;
use vstd::prelude::*;

verus! {

/// What the program that is compiled needs of the runtime.
pub struct CompilationContext {
    pub native_module_imports: NameSet,
    pub uses_get_builtin_module: bool,
    pub needs_wasm_runtime: bool,
    pub uses_regex: bool,
    pub uses_temporal: bool,
    pub uses_event_emitter: bool,
    pub uses_url: bool,
    pub uses_string_normalize: bool,
    pub uses_intl_segmenter: bool,
    pub uses_intl_locale: bool,
    pub uses_intl_datetime: bool,
    pub uses_intl_namespace: bool,
    pub uses_global_math: bool,
    pub uses_global_json: bool,
    pub uses_global_reflect: bool,
    pub uses_global_atomics: bool,
    pub uses_global_url: bool,
    pub uses_global_text: bool,
    pub uses_global_websocket: bool,
    pub uses_global_webcrypto: bool,
    pub uses_global_webfetch: bool,
    pub uses_proc_ipc: bool,
    pub uses_diagnostics: bool,
    pub uses_dgram: bool,
    pub uses_fetch: bool,
}

/// The places of the program that make code at run time: deferred dynamic code
/// (`eval(...)` / `new Function(...)` with a runtime body), and known code
/// generators.
pub struct CodegenSites {
    pub deferred_dynamic_code: bool,
    pub known_codegen: bool,
}

/// The values of the environment variables that shape a build, each where it is
/// set and is Unicode.
pub struct BuildEnv {
    /// `PERRY_SIZE_OPT`
    pub size_opt: Option<String>,
    /// `PERRY_SIZE_LTO`
    pub size_lto: Option<String>,
    /// `PERRY_SIZE_PANIC`
    pub size_panic: Option<String>,
    /// `PERRY_GC_TRACE`
    pub gc_trace: Option<String>,
    /// `PERRY_LLVM_BITCODE_LINK`
    pub bitcode_link: Option<String>,
}

/// Whether the program can reach the HTTP/2 constants.
pub open spec fn http2_gate(ctx: CompilationContext) -> bool {
    ctx.native_module_imports@.contains("http2"@) || ctx.uses_get_builtin_module
}

/// Whether the program imports `node:http2` or resolves builtin modules whose
/// name is only known at run time.
pub fn needs_http2_constants(ctx: &CompilationContext) -> (r: bool)
    ensures
        r == http2_gate(*ctx),
{
    ctx.native_module_imports.contains("http2") || ctx.uses_get_builtin_module
}

/// Whether the optional string is `expected`.
fn is_text(value: &Option<String>, expected: &str) -> (r: bool)
    ensures
        r == (text::opt_view(*value) == Some(expected@)),
{
    match value {
        Some(s) => str_eq(s.as_str(), expected),
        None => false,
    }
}

/// The size optimization that the environment asks for.
pub open spec fn size_opt(env: BuildEnv) -> Option<Seq<char>> {
    if text::opt_view(env.size_opt) == Some("z"@) {
        Some("z"@)
    } else if text::opt_view(env.size_opt) == Some("s"@) {
        Some("s"@)
    } else {
        None
    }
}

/// `PERRY_SIZE_OPT=z|s`: opt-in size-optimized rebuild of the
/// auto-optimized runtime/stdlib archives (`-C opt-level=z`/`s` instead of
/// the profile's `3`). Any other value (or unset) means "off". Read in the
/// rustflags builder AND the cache key so the two can never disagree about
/// which archive a `target/perry-auto-<hash>` dir contains.
pub fn size_opt_level(env: &BuildEnv) -> (r: Option<&'static str>)
    ensures
        text::opt_str_view(r) == size_opt(*env),
{
    if is_text(&env.size_opt, "z") {
        Some("z")
    } else if is_text(&env.size_opt, "s") {
        Some("s")
    } else {
        None
    }
}

/// Whether the environment asks for immediate aborts in size mode.
pub open spec fn size_panic(env: BuildEnv) -> bool {
    text::opt_view(env.size_panic) == Some("abort-immediate"@) && size_opt(env) is Some
}

/// `PERRY_SIZE_PANIC=abort-immediate`: size mode only. Rebuilds the Rust
/// standard library from source with `panic_immediate_abort`, which removes
/// the backtrace symbolizer and drops unwind tables. A Rust panic then aborts
/// without printing a symbolized Rust backtrace: the JS error surface is
/// unaffected, but internal-error diagnostics get terser, so this stays opt-in
/// on top of `PERRY_SIZE_OPT`.
pub fn size_panic_immediate_abort(env: &BuildEnv) -> (r: bool)
    ensures
        r == size_panic(*env),
{
    is_text(&env.size_panic, "abort-immediate") && size_opt_level(env).is_some()
}

/// Immediate-abort may only replace the normal panic strategy when the same
/// reachability analysis that permits `panic=abort` found no unwind consumers.
pub fn effective_size_panic_immediate_abort(panic_abort_safe: bool, env: &BuildEnv) -> (r: bool)
    ensures
        r == (panic_abort_safe && size_panic(*env)),
{
    panic_abort_safe && size_panic_immediate_abort(env)
}

/// Whether the environment asks for fat LTO.
pub open spec fn fat_lto(env: BuildEnv) -> bool {
    text::opt_view(env.size_lto) == Some("fat"@)
}

/// `PERRY_SIZE_LTO=fat`: additionally rebuild the archives with fat LTO +
/// a single codegen unit. Slower build, smaller/faster archive; only
/// meaningful together with `size_opt_level`. Keyed into the cache like the
/// opt level.
pub fn size_lto_fat(env: &BuildEnv) -> (r: bool)
    ensures
        r == fat_lto(*env),
{
    is_text(&env.size_lto, "fat")
}

/// Whether the environment asks for the whole-program bitcode link.
pub open spec fn bitcode_link(env: BuildEnv) -> bool {
    text::opt_view(env.bitcode_link) == Some("1"@)
}

/// Whether the environment asks for the whole-program bitcode link.
pub fn bitcode_link_requested(env: &BuildEnv) -> (r: bool)
    ensures
        r == bitcode_link(*env),
{
    is_text(&env.bitcode_link, "1")
}

/// Whether the environment asks for the trace of the garbage collector.
pub open spec fn gc_trace(env: BuildEnv) -> bool {
    match text::opt_view(env.gc_trace) {
        Some(value) => value == "1"@ || text::same_ignoring_ascii_case(value, "true"@),
        None => false,
    }
}

/// Whether the environment asks for the trace of the garbage collector.
pub fn gc_trace_requested(env: &BuildEnv) -> (r: bool)
    ensures
        r == gc_trace(*env),
{
    match &env.gc_trace {
        Some(value) => str_eq(value.as_str(), "1") || text::eq_ignore_ascii_case(
            value.as_str(),
            "true",
        ),
        None => false,
    }
}

/// The size level is `z` or `s` where the variable says just that, and off
/// otherwise.
pub proof fn law_size_level(env: BuildEnv, level: Seq<char>)
    ensures
        size_opt(env) == Some(level) <==> {
            &&& env.size_opt is Some
            &&& env.size_opt->0@ == level
            &&& level == "z"@ || level == "s"@
        },
        size_opt(env) is None <==> env.size_opt is None || (env.size_opt->0@ != "z"@
            && env.size_opt->0@ != "s"@),
{
}

/// Immediate aborts need both their own variable and a size level.
pub proof fn law_immediate_abort_needs_size_mode(env: BuildEnv)
    ensures
        size_panic(env) <==> {
            &&& env.size_panic is Some
            &&& env.size_panic->0@ == "abort-immediate"@
            &&& env.size_opt is Some
            &&& env.size_opt->0@ == "z"@ || env.size_opt->0@ == "s"@
        },
{
}

/// Fat LTO and the bitcode link are asked for by one value each.
pub proof fn law_link_settings(env: BuildEnv)
    ensures
        fat_lto(env) <==> env.size_lto is Some && env.size_lto->0@ == "fat"@,
        bitcode_link(env) <==> env.bitcode_link is Some && env.bitcode_link->0@ == "1"@,
{
}

/// The trace is asked for by `1`, and by `true` in any case.
pub proof fn law_trace_setting(env: BuildEnv)
    ensures
        gc_trace(env) <==> env.gc_trace is Some && {
            let v = env.gc_trace->0@;
            ||| v == "1"@
            ||| {
                &&& v.len() == 4
                &&& v[0] == 't' || v[0] == 'T'
                &&& v[1] == 'r' || v[1] == 'R'
                &&& v[2] == 'u' || v[2] == 'U'
                &&& v[3] == 'e' || v[3] == 'E'
            }
        },
{
    reveal_strlit("true");
    if env.gc_trace is Some {
        let v = env.gc_trace->0@;
        let t = "true"@;
        text::law_ignoring_case(v, t);
        assert(t.len() == 4 && t[0] == 't' && t[1] == 'r' && t[2] == 'u' && t[3] == 'e');
        if v.len() == 4 && (v[0] == 't' || v[0] == 'T') && (v[1] == 'r' || v[1] == 'R') && (v[2]
            == 'u' || v[2] == 'U') && (v[3] == 'e' || v[3] == 'E') {
            assert forall|i: int| 0 <= i < 4 implies {
                ||| #[trigger] v[i] == t[i]
                ||| 'A' <= v[i] <= 'Z' && t[i] as u32 == v[i] as u32 + 32
                ||| 'A' <= t[i] <= 'Z' && v[i] as u32 == t[i] as u32 + 32
            } by {
                assert(i == 0 || i == 1 || i == 2 || i == 3);
            }
        }
        if text::same_ignoring_ascii_case(v, t) {
            assert(v.len() == 4);
            assert(v[0] == t[0] || v[0] != t[0]);
            assert(v[1] == t[1] || v[1] != t[1]);
            assert(v[2] == t[2] || v[2] != t[2]);
            assert(v[3] == t[3] || v[3] != t[3]);
        }
    }
}

/// The HTTP/2 constants are kept for programs that import `http2`, and for those
/// that resolve builtin modules at run time.
pub proof fn law_http2_gate(ctx: CompilationContext)
    ensures
        http2_gate(ctx) <==> ctx.native_module_imports@.contains("http2"@)
            || ctx.uses_get_builtin_module,
{
}

} // verus!
