//! The cache key of an auto-optimize build.
use crate::context;
use crate::context::{
    bitcode_link_requested, gc_trace_requested, needs_http2_constants, size_lto_fat, size_opt_level,
    BuildEnv, CodegenSites, CompilationContext,
};
use crate::cross_features;
use crate::text;
use vstd::prelude::*;

verus! {

/// `true` or `false`.
pub open spec fn bool_text(b: bool) -> Seq<char> {
    if b {
        "true"@
    } else {
        "false"@
    }
}

/// The name of a target, `host` where none is given.
pub open spec fn target_text(target: Option<Seq<char>>) -> Seq<char> {
    match target {
        Some(name) => name,
        None => "host"@,
    }
}

/// The size settings of a build, in short.
pub open spec fn size_text(env: BuildEnv, panic_immediate: bool) -> Seq<char> {
    let level = match context::size_opt(env) {
        Some(level) => level,
        None => "off"@,
    };
    level + mark_text(context::fat_lto(env), "+fatlto"@) + mark_text(panic_immediate, "+panicimm"@)
}

/// The mark of a gate that is written only where it is set.
pub open spec fn mark_text(set: bool, mark: Seq<char>) -> Seq<char> {
    if set {
        mark
    } else {
        ""@
    }
}

/// The marks of the date engine and of the fetch symbols.
pub open spec fn marks_text(ctx: CompilationContext) -> Seq<char> {
    mark_text(ctx.uses_intl_datetime, "+datetime"@) + mark_text(ctx.uses_fetch, "+fetch"@)
}

/// The part of the key on the engines of the runtime.
pub open spec fn engines_text(ctx: CompilationContext) -> Seq<char> {
    "|wasm="@ + bool_text(ctx.needs_wasm_runtime)
        + "|regex="@ + bool_text(ctx.uses_regex)
        + "|temporal="@ + bool_text(ctx.uses_temporal)
        + "|ee="@ + bool_text(ctx.uses_event_emitter)
        + "|url="@ + bool_text(ctx.uses_url)
        + "|norm="@ + bool_text(ctx.uses_string_normalize)
        + "|seg="@ + bool_text(ctx.uses_intl_segmenter)
        + "|loc="@ + bool_text(ctx.uses_intl_locale)
        + "|intlns="@ + bool_text(ctx.uses_intl_namespace)
        + marks_text(ctx)
}

/// The part of the key on the `globalThis` namespaces.
pub open spec fn globals_text(ctx: CompilationContext) -> Seq<char> {
    "|gns="@ + bool_text(ctx.uses_global_math)
        + bool_text(ctx.uses_global_json)
        + bool_text(ctx.uses_global_reflect)
        + bool_text(ctx.uses_global_atomics)
        + bool_text(ctx.uses_global_url)
        + bool_text(ctx.uses_global_text)
        + bool_text(ctx.uses_global_websocket)
        + bool_text(ctx.uses_global_webcrypto)
        + bool_text(ctx.uses_global_webfetch)
        + bool_text(ctx.uses_proc_ipc)
}

/// Whether diagnostics are built in for the trace alone: the environment asks for
/// it, and the program does not use them itself.
pub open spec fn trace_only(ctx: CompilationContext, env: BuildEnv) -> bool {
    context::gc_trace(env) && !ctx.uses_diagnostics
}

/// The part of the key on modules, generated code and build settings.
pub open spec fn settings_text(
    panic_immediate: bool,
    ctx: CompilationContext,
    sites: CodegenSites,
    env: BuildEnv,
) -> Seq<char> {
    "|diag="@ + bool_text(ctx.uses_diagnostics)
        + mark_text(trace_only(ctx, env), "+gctrace"@)
        + "|dgram="@ + bool_text(ctx.uses_dgram)
        + "|http2="@ + bool_text(context::http2_gate(ctx))
        + "|dyneval="@ + bool_text(sites.deferred_dynamic_code)
        + "|knowngen="@ + bool_text(sites.known_codegen)
        + "|sizeopt="@ + size_text(env, panic_immediate)
        + "|anchors="@ + bool_text(context::bitcode_link(env))
}

/// The cache key of a build.
pub open spec fn cache_key(
    feature_arg: Seq<char>,
    panic_abort_safe: bool,
    panic_immediate: bool,
    target: Option<Seq<char>>,
    ctx: CompilationContext,
    sites: CodegenSites,
    env: BuildEnv,
    version: Seq<char>,
) -> Seq<char> {
    feature_arg + "|"@ + bool_text(panic_abort_safe) + "|"@ + target_text(target)
        + engines_text(ctx) + globals_text(ctx)
        + settings_text(panic_immediate, ctx, sites, env) + "|v="@ + version
}

/// Adds `true` or `false` to `out`.
fn append_bool(out: &mut String, b: bool)
    ensures
        final(out)@ == old(out)@ + bool_text(b),
{
    if b {
        out.append("true");
    } else {
        out.append("false");
    }
}

/// Adds the mark of a gate where it is set.
fn append_mark(out: &mut String, set: bool, mark: &str)
    ensures
        final(out)@ == old(out)@ + mark_text(set, mark@),
{
    if set {
        out.append(mark);
    } else {
        out.append("");
    }
}

/// The marks of the date engine and of the fetch symbols. Each pulls in a
/// runtime feature, so it must key the cache like the other gates.
fn marks_part(ctx: &CompilationContext) -> (out: String)
    ensures
        out@ == marks_text(*ctx),
{
    let mut out = String::new();
    append_mark(&mut out, ctx.uses_intl_datetime, "+datetime");
    proof {
        assert(out@ =~= mark_text(ctx.uses_intl_datetime, "+datetime"@));
    }
    append_mark(&mut out, ctx.uses_fetch, "+fetch");
    out
}

/// The part of the key on the engines of the runtime.
fn engines_part(ctx: &CompilationContext) -> (out: String)
    ensures
        out@ == engines_text(*ctx),
{
    let mut out = "|wasm=".to_owned();
    append_bool(&mut out, ctx.needs_wasm_runtime);
    out.append("|regex=");
    append_bool(&mut out, ctx.uses_regex);
    out.append("|temporal=");
    append_bool(&mut out, ctx.uses_temporal);
    out.append("|ee=");
    append_bool(&mut out, ctx.uses_event_emitter);
    out.append("|url=");
    append_bool(&mut out, ctx.uses_url);
    out.append("|norm=");
    append_bool(&mut out, ctx.uses_string_normalize);
    out.append("|seg=");
    append_bool(&mut out, ctx.uses_intl_segmenter);
    out.append("|loc=");
    append_bool(&mut out, ctx.uses_intl_locale);
    out.append("|intlns=");
    append_bool(&mut out, ctx.uses_intl_namespace);
    out.append(marks_part(ctx).as_str());
    out
}

/// The part of the key on the `globalThis` namespaces.
fn globals_part(ctx: &CompilationContext) -> (out: String)
    ensures
        out@ == globals_text(*ctx),
{
    let mut out = "|gns=".to_owned();
    append_bool(&mut out, ctx.uses_global_math);
    append_bool(&mut out, ctx.uses_global_json);
    append_bool(&mut out, ctx.uses_global_reflect);
    append_bool(&mut out, ctx.uses_global_atomics);
    append_bool(&mut out, ctx.uses_global_url);
    append_bool(&mut out, ctx.uses_global_text);
    append_bool(&mut out, ctx.uses_global_websocket);
    append_bool(&mut out, ctx.uses_global_webcrypto);
    append_bool(&mut out, ctx.uses_global_webfetch);
    append_bool(&mut out, ctx.uses_proc_ipc);
    out
}

/// The size settings of a build, in short.
fn size_part(env: &BuildEnv, panic_immediate: bool) -> (out: String)
    ensures
        out@ == size_text(*env, panic_immediate),
{
    let mut out = match size_opt_level(env) {
        Some(level) => level.to_owned(),
        None => "off".to_owned(),
    };
    append_mark(&mut out, size_lto_fat(env), "+fatlto");
    append_mark(&mut out, panic_immediate, "+panicimm");
    out
}

/// The part of the key on modules, generated code and build settings.
fn settings_part(
    panic_immediate: bool,
    ctx: &CompilationContext,
    sites: &CodegenSites,
    env: &BuildEnv,
) -> (out: String)
    ensures
        out@ == settings_text(panic_immediate, *ctx, *sites, *env),
{
    let mut out = "|diag=".to_owned();
    append_bool(&mut out, ctx.uses_diagnostics);
    // The dev trace rides the diagnostics feature, so asking for it is keyed
    // where the program's own use of them does not turn that on already.
    append_mark(&mut out, gc_trace_requested(env) && !ctx.uses_diagnostics, "+gctrace");
    out.append("|dgram=");
    append_bool(&mut out, ctx.uses_dgram);
    // HTTP/2 imports and dynamic builtin resolution pull in
    // `perry-runtime/mod-http2-constants`, so key the cache on the shared gate
    // like the other optional runtime features.
    out.append("|http2=");
    append_bool(&mut out, needs_http2_constants(ctx));
    // Dyn-eval presence changes the built archive, so it must key the
    // freshness stamp like every other runtime feature toggle.
    out.append("|dyneval=");
    append_bool(&mut out, sites.deferred_dynamic_code);
    out.append("|knowngen=");
    append_bool(&mut out, sites.known_codegen);
    out.append("|sizeopt=");
    out.append(size_part(env, panic_immediate).as_str());
    out.append("|anchors=");
    append_bool(&mut out, bitcode_link_requested(env));
    out
}

/// Cache key for the auto-optimize target dir + build stamp. Hashed into the
/// `target/perry-auto-<hash>` dir name so each (features, panic-mode, target,
/// runtime-gate, version) combination gets its own incremental cache.
pub fn auto_optimized_cache_key(
    feature_arg: &str,
    panic_abort_safe: bool,
    panic_immediate: bool,
    target: Option<&str>,
    ctx: &CompilationContext,
    sites: &CodegenSites,
    env: &BuildEnv,
    version: &str,
) -> (key: String)
    ensures
        key@ == cache_key(
            feature_arg@,
            panic_abort_safe,
            panic_immediate,
            text::opt_str_view(target),
            *ctx,
            *sites,
            *env,
            version@,
        ),
{
    let mut key = feature_arg.to_owned();
    key.append("|");
    append_bool(&mut key, panic_abort_safe);
    key.append("|");
    key.append(
        match target {
            Some(name) => name,
            None => "host",
        },
    );
    key.append(engines_part(ctx).as_str());
    key.append(globals_part(ctx).as_str());
    key.append(settings_part(panic_immediate, ctx, sites, env).as_str());
    key.append("|v=");
    key.append(version);
    key
}

/// Whether two programs open the same gates of the runtime.
pub open spec fn same_gates(a: CompilationContext, b: CompilationContext) -> bool {
    &&& a.needs_wasm_runtime == b.needs_wasm_runtime
    &&& a.uses_regex == b.uses_regex
    &&& a.uses_temporal == b.uses_temporal
    &&& a.uses_event_emitter == b.uses_event_emitter
    &&& a.uses_url == b.uses_url
    &&& a.uses_string_normalize == b.uses_string_normalize
    &&& a.uses_intl_segmenter == b.uses_intl_segmenter
    &&& a.uses_intl_locale == b.uses_intl_locale
    &&& a.uses_intl_namespace == b.uses_intl_namespace
    &&& a.uses_intl_datetime == b.uses_intl_datetime
    &&& a.uses_fetch == b.uses_fetch
    &&& a.uses_global_math == b.uses_global_math
    &&& a.uses_global_json == b.uses_global_json
    &&& a.uses_global_reflect == b.uses_global_reflect
    &&& a.uses_global_atomics == b.uses_global_atomics
    &&& a.uses_global_url == b.uses_global_url
    &&& a.uses_global_text == b.uses_global_text
    &&& a.uses_global_websocket == b.uses_global_websocket
    &&& a.uses_global_webcrypto == b.uses_global_webcrypto
    &&& a.uses_global_webfetch == b.uses_global_webfetch
    &&& a.uses_proc_ipc == b.uses_proc_ipc
    &&& a.uses_diagnostics == b.uses_diagnostics
    &&& a.uses_dgram == b.uses_dgram
    &&& context::http2_gate(a) == context::http2_gate(b)
}

/// Whether two environments ask for the same size optimization, LTO and link.
pub open spec fn same_settings(a: BuildEnv, b: BuildEnv) -> bool {
    &&& context::size_opt(a) == context::size_opt(b)
    &&& context::fat_lto(a) == context::fat_lto(b)
    &&& context::bitcode_link(a) == context::bitcode_link(b)
}

proof fn lemma_bools()
    ensures
        "true"@.len() == 4,
        "true"@[0] == 't',
        "false"@.len() == 5,
        "false"@[0] == 'f',
        !"true"@.contains('|'),
        !"false"@.contains('|'),
{
    reveal_strlit("true");
    reveal_strlit("false");
}

proof fn lemma_decode_bool(a: bool, b: bool, x: Seq<char>, y: Seq<char>)
    requires
        bool_text(a) + x == bool_text(b) + y,
    ensures
        a == b,
        x == y,
{
    lemma_bools();
    assert((bool_text(a) + x)[0] == bool_text(a)[0]);
    assert((bool_text(b) + y)[0] == bool_text(b)[0]);
    text::lemma_cancel_start(bool_text(a), x, y);
}

proof fn lemma_decode_tagged(tag: Seq<char>, a: bool, b: bool, x: Seq<char>, y: Seq<char>)
    requires
        tag + bool_text(a) + x == tag + bool_text(b) + y,
    ensures
        a == b,
        x == y,
{
    assert(tag + bool_text(a) + x =~= tag + (bool_text(a) + x));
    assert(tag + bool_text(b) + y =~= tag + (bool_text(b) + y));
    text::lemma_cancel_start(tag, bool_text(a) + x, bool_text(b) + y);
    lemma_decode_bool(a, b, x, y);
}

proof fn lemma_assoc(x: Seq<char>, b: Seq<char>, r: Seq<char>)
    ensures
        x + b + r == x + (b + r),
{
    assert(x + b + r =~= x + (b + r));
}

/// A flag under its tag, and what follows it.
spec fn tagged(tag: Seq<char>, flag: bool, rest: Seq<char>) -> Seq<char> {
    tag + bool_text(flag) + rest
}

/// A flag without a tag, and what follows it.
spec fn flagged(flag: bool, rest: Seq<char>) -> Seq<char> {
    bool_text(flag) + rest
}

proof fn lemma_tagged(x: Seq<char>, tag: Seq<char>, flag: bool, rest: Seq<char>)
    ensures
        x + tag + bool_text(flag) + rest == x + tagged(tag, flag, rest),
{
    assert(x + tag + bool_text(flag) + rest =~= x + tagged(tag, flag, rest));
}

proof fn lemma_tagged_start(tag: Seq<char>, flag: bool, rest: Seq<char>)
    requires
        tag.len() > 0,
    ensures
        tagged(tag, flag, rest).len() > 0,
        tagged(tag, flag, rest)[0] == tag[0],
{
}

/// What follows the first flag of the engines.
spec fn engines_rest(c: CompilationContext, x: Seq<char>) -> Seq<char> {
    let r9 = marks_text(c) + x;
    let r8 = tagged("|intlns="@, c.uses_intl_namespace, r9);
    let r7 = tagged("|loc="@, c.uses_intl_locale, r8);
    let r6 = tagged("|seg="@, c.uses_intl_segmenter, r7);
    let r5 = tagged("|norm="@, c.uses_string_normalize, r6);
    let r4 = tagged("|url="@, c.uses_url, r5);
    let r3 = tagged("|ee="@, c.uses_event_emitter, r4);
    let r2 = tagged("|temporal="@, c.uses_temporal, r3);
    tagged("|regex="@, c.uses_regex, r2)
}

/// The part of the key on the engines, flag by flag, and what follows it.
spec fn engines_then(c: CompilationContext, x: Seq<char>) -> Seq<char> {
    tagged("|wasm="@, c.needs_wasm_runtime, engines_rest(c, x))
}

proof fn lemma_engines_then(c: CompilationContext, x: Seq<char>)
    ensures
        engines_text(c) + x == engines_then(c, x),
{
    let p1 = "|wasm="@ + bool_text(c.needs_wasm_runtime);
    let p2 = p1 + "|regex="@ + bool_text(c.uses_regex);
    let p3 = p2 + "|temporal="@ + bool_text(c.uses_temporal);
    let p4 = p3 + "|ee="@ + bool_text(c.uses_event_emitter);
    let p5 = p4 + "|url="@ + bool_text(c.uses_url);
    let p6 = p5 + "|norm="@ + bool_text(c.uses_string_normalize);
    let p7 = p6 + "|seg="@ + bool_text(c.uses_intl_segmenter);
    let p8 = p7 + "|loc="@ + bool_text(c.uses_intl_locale);
    let p9 = p8 + "|intlns="@ + bool_text(c.uses_intl_namespace);
    let r9 = marks_text(c) + x;
    lemma_assoc(p9, marks_text(c), x);
    let r8 = tagged("|intlns="@, c.uses_intl_namespace, r9);
    lemma_tagged(p8, "|intlns="@, c.uses_intl_namespace, r9);
    let r7 = tagged("|loc="@, c.uses_intl_locale, r8);
    lemma_tagged(p7, "|loc="@, c.uses_intl_locale, r8);
    let r6 = tagged("|seg="@, c.uses_intl_segmenter, r7);
    lemma_tagged(p6, "|seg="@, c.uses_intl_segmenter, r7);
    let r5 = tagged("|norm="@, c.uses_string_normalize, r6);
    lemma_tagged(p5, "|norm="@, c.uses_string_normalize, r6);
    let r4 = tagged("|url="@, c.uses_url, r5);
    lemma_tagged(p4, "|url="@, c.uses_url, r5);
    let r3 = tagged("|ee="@, c.uses_event_emitter, r4);
    lemma_tagged(p3, "|ee="@, c.uses_event_emitter, r4);
    let r2 = tagged("|temporal="@, c.uses_temporal, r3);
    lemma_tagged(p2, "|temporal="@, c.uses_temporal, r3);
    let r1 = tagged("|regex="@, c.uses_regex, r2);
    lemma_tagged(p1, "|regex="@, c.uses_regex, r2);
}

proof fn lemma_marks(a: CompilationContext, b: CompilationContext, x: Seq<char>, y: Seq<char>)
    requires
        marks_text(a) + x == marks_text(b) + y,
        x.len() > 0,
        x[0] == '|',
        y.len() > 0,
        y[0] == '|',
    ensures
        a.uses_intl_datetime == b.uses_intl_datetime,
        a.uses_fetch == b.uses_fetch,
        x == y,
{
    reveal_strlit("+datetime");
    reveal_strlit("+fetch");
    reveal_strlit("");
    let ma = marks_text(a);
    let mb = marks_text(b);
    assert(forall|i: int| 0 <= i < ma.len() ==> #[trigger] ma[i] != '|');
    assert(forall|i: int| 0 <= i < mb.len() ==> #[trigger] mb[i] != '|');
    assert(ma + x =~= ma + seq!['|'] + x.skip(1));
    assert(mb + y =~= mb + seq!['|'] + y.skip(1));
    text::lemma_split_at_separator(ma, mb, x.skip(1), y.skip(1), '|');
    text::lemma_cancel_start(ma, x, y);
    assert(ma.len() == mb.len());
}

proof fn lemma_engines(a: CompilationContext, b: CompilationContext, x: Seq<char>, y: Seq<char>)
    requires
        engines_text(a) + x == engines_text(b) + y,
        x.len() > 0,
        x[0] == '|',
        y.len() > 0,
        y[0] == '|',
    ensures
        a.needs_wasm_runtime == b.needs_wasm_runtime,
        a.uses_regex == b.uses_regex,
        a.uses_temporal == b.uses_temporal,
        a.uses_event_emitter == b.uses_event_emitter,
        a.uses_url == b.uses_url,
        a.uses_string_normalize == b.uses_string_normalize,
        a.uses_intl_segmenter == b.uses_intl_segmenter,
        a.uses_intl_locale == b.uses_intl_locale,
        a.uses_intl_namespace == b.uses_intl_namespace,
        a.uses_intl_datetime == b.uses_intl_datetime,
        a.uses_fetch == b.uses_fetch,
        x == y,
{
    lemma_engines_then(a, x);
    lemma_engines_then(b, y);
    let r9 = marks_text(a) + x;
    let s9 = marks_text(b) + y;
    let r8 = tagged("|intlns="@, a.uses_intl_namespace, r9);
    let s8 = tagged("|intlns="@, b.uses_intl_namespace, s9);
    let r7 = tagged("|loc="@, a.uses_intl_locale, r8);
    let s7 = tagged("|loc="@, b.uses_intl_locale, s8);
    let r6 = tagged("|seg="@, a.uses_intl_segmenter, r7);
    let s6 = tagged("|seg="@, b.uses_intl_segmenter, s7);
    let r5 = tagged("|norm="@, a.uses_string_normalize, r6);
    let s5 = tagged("|norm="@, b.uses_string_normalize, s6);
    let r4 = tagged("|url="@, a.uses_url, r5);
    let s4 = tagged("|url="@, b.uses_url, s5);
    let r3 = tagged("|ee="@, a.uses_event_emitter, r4);
    let s3 = tagged("|ee="@, b.uses_event_emitter, s4);
    let r2 = tagged("|temporal="@, a.uses_temporal, r3);
    let s2 = tagged("|temporal="@, b.uses_temporal, s3);
    let r1 = tagged("|regex="@, a.uses_regex, r2);
    let s1 = tagged("|regex="@, b.uses_regex, s2);
    lemma_decode_tagged("|wasm="@, a.needs_wasm_runtime, b.needs_wasm_runtime, r1, s1);
    lemma_decode_tagged("|regex="@, a.uses_regex, b.uses_regex, r2, s2);
    lemma_decode_tagged("|temporal="@, a.uses_temporal, b.uses_temporal, r3, s3);
    lemma_decode_tagged("|ee="@, a.uses_event_emitter, b.uses_event_emitter, r4, s4);
    lemma_decode_tagged("|url="@, a.uses_url, b.uses_url, r5, s5);
    lemma_decode_tagged("|norm="@, a.uses_string_normalize, b.uses_string_normalize, r6, s6);
    lemma_decode_tagged("|seg="@, a.uses_intl_segmenter, b.uses_intl_segmenter, r7, s7);
    lemma_decode_tagged("|loc="@, a.uses_intl_locale, b.uses_intl_locale, r8, s8);
    lemma_decode_tagged("|intlns="@, a.uses_intl_namespace, b.uses_intl_namespace, r9, s9);
    lemma_marks(a, b, x, y);
}

/// What follows the first flag of the namespaces.
spec fn globals_rest(c: CompilationContext, x: Seq<char>) -> Seq<char> {
    let r9 = flagged(c.uses_proc_ipc, x);
    let r8 = flagged(c.uses_global_webfetch, r9);
    let r7 = flagged(c.uses_global_webcrypto, r8);
    let r6 = flagged(c.uses_global_websocket, r7);
    let r5 = flagged(c.uses_global_text, r6);
    let r4 = flagged(c.uses_global_url, r5);
    let r3 = flagged(c.uses_global_atomics, r4);
    let r2 = flagged(c.uses_global_reflect, r3);
    flagged(c.uses_global_json, r2)
}

/// The part of the key on the namespaces, flag by flag, and what follows it.
spec fn globals_then(c: CompilationContext, x: Seq<char>) -> Seq<char> {
    tagged("|gns="@, c.uses_global_math, globals_rest(c, x))
}

proof fn lemma_globals_then(c: CompilationContext, x: Seq<char>)
    ensures
        globals_text(c) + x == globals_then(c, x),
{
    let p1 = "|gns="@ + bool_text(c.uses_global_math);
    let p2 = p1 + bool_text(c.uses_global_json);
    let p3 = p2 + bool_text(c.uses_global_reflect);
    let p4 = p3 + bool_text(c.uses_global_atomics);
    let p5 = p4 + bool_text(c.uses_global_url);
    let p6 = p5 + bool_text(c.uses_global_text);
    let p7 = p6 + bool_text(c.uses_global_websocket);
    let p8 = p7 + bool_text(c.uses_global_webcrypto);
    let p9 = p8 + bool_text(c.uses_global_webfetch);
    let r9 = flagged(c.uses_proc_ipc, x);
    lemma_assoc(p9, bool_text(c.uses_proc_ipc), x);
    let r8 = flagged(c.uses_global_webfetch, r9);
    lemma_assoc(p8, bool_text(c.uses_global_webfetch), r9);
    let r7 = flagged(c.uses_global_webcrypto, r8);
    lemma_assoc(p7, bool_text(c.uses_global_webcrypto), r8);
    let r6 = flagged(c.uses_global_websocket, r7);
    lemma_assoc(p6, bool_text(c.uses_global_websocket), r7);
    let r5 = flagged(c.uses_global_text, r6);
    lemma_assoc(p5, bool_text(c.uses_global_text), r6);
    let r4 = flagged(c.uses_global_url, r5);
    lemma_assoc(p4, bool_text(c.uses_global_url), r5);
    let r3 = flagged(c.uses_global_atomics, r4);
    lemma_assoc(p3, bool_text(c.uses_global_atomics), r4);
    let r2 = flagged(c.uses_global_reflect, r3);
    lemma_assoc(p2, bool_text(c.uses_global_reflect), r3);
    let r1 = flagged(c.uses_global_json, r2);
    lemma_assoc(p1, bool_text(c.uses_global_json), r2);
}

proof fn lemma_globals(a: CompilationContext, b: CompilationContext, x: Seq<char>, y: Seq<char>)
    requires
        globals_text(a) + x == globals_text(b) + y,
    ensures
        a.uses_global_math == b.uses_global_math,
        a.uses_global_json == b.uses_global_json,
        a.uses_global_reflect == b.uses_global_reflect,
        a.uses_global_atomics == b.uses_global_atomics,
        a.uses_global_url == b.uses_global_url,
        a.uses_global_text == b.uses_global_text,
        a.uses_global_websocket == b.uses_global_websocket,
        a.uses_global_webcrypto == b.uses_global_webcrypto,
        a.uses_global_webfetch == b.uses_global_webfetch,
        a.uses_proc_ipc == b.uses_proc_ipc,
        x == y,
{
    lemma_globals_then(a, x);
    lemma_globals_then(b, y);
    let r9 = flagged(a.uses_proc_ipc, x);
    let s9 = flagged(b.uses_proc_ipc, y);
    let r8 = flagged(a.uses_global_webfetch, r9);
    let s8 = flagged(b.uses_global_webfetch, s9);
    let r7 = flagged(a.uses_global_webcrypto, r8);
    let s7 = flagged(b.uses_global_webcrypto, s8);
    let r6 = flagged(a.uses_global_websocket, r7);
    let s6 = flagged(b.uses_global_websocket, s7);
    let r5 = flagged(a.uses_global_text, r6);
    let s5 = flagged(b.uses_global_text, s6);
    let r4 = flagged(a.uses_global_url, r5);
    let s4 = flagged(b.uses_global_url, s5);
    let r3 = flagged(a.uses_global_atomics, r4);
    let s3 = flagged(b.uses_global_atomics, s4);
    let r2 = flagged(a.uses_global_reflect, r3);
    let s2 = flagged(b.uses_global_reflect, s3);
    let r1 = flagged(a.uses_global_json, r2);
    let s1 = flagged(b.uses_global_json, s2);
    lemma_decode_tagged("|gns="@, a.uses_global_math, b.uses_global_math, r1, s1);
    lemma_decode_bool(a.uses_global_json, b.uses_global_json, r2, s2);
    lemma_decode_bool(a.uses_global_reflect, b.uses_global_reflect, r3, s3);
    lemma_decode_bool(a.uses_global_atomics, b.uses_global_atomics, r4, s4);
    lemma_decode_bool(a.uses_global_url, b.uses_global_url, r5, s5);
    lemma_decode_bool(a.uses_global_text, b.uses_global_text, r6, s6);
    lemma_decode_bool(a.uses_global_websocket, b.uses_global_websocket, r7, s7);
    lemma_decode_bool(a.uses_global_webcrypto, b.uses_global_webcrypto, r8, s8);
    lemma_decode_bool(a.uses_global_webfetch, b.uses_global_webfetch, r9, s9);
    lemma_decode_bool(a.uses_proc_ipc, b.uses_proc_ipc, x, y);
}

proof fn lemma_size_text(a: BuildEnv, b: BuildEnv, imm_a: bool, imm_b: bool)
    ensures
        !size_text(a, imm_a).contains('|'),
        size_text(a, imm_a) == size_text(b, imm_b) ==> {
            &&& context::size_opt(a) == context::size_opt(b)
            &&& context::fat_lto(a) == context::fat_lto(b)
            &&& imm_a == imm_b
        },
{
    reveal_strlit("z");
    reveal_strlit("s");
    reveal_strlit("off");
    reveal_strlit("+fatlto");
    reveal_strlit("+panicimm");
    reveal_strlit("");
    assert(forall|i: int|
        0 <= i < size_text(a, imm_a).len() ==> #[trigger] size_text(a, imm_a)[i] != '|');
    if size_text(a, imm_a) == size_text(b, imm_b) {
        assert(size_text(a, imm_a)[0] == size_text(b, imm_b)[0]);
        assert(size_text(a, imm_a).len() == size_text(b, imm_b).len());
    }
}

/// What follows the flags on generated code.
spec fn after_codegen(imm: bool, env: BuildEnv, x: Seq<char>) -> Seq<char> {
    "|sizeopt="@ + size_text(env, imm) + tagged("|anchors="@, context::bitcode_link(env), x)
}

/// The part of the key on modules and settings, piece by piece, and what follows
/// it.
spec fn settings_then(
    imm: bool,
    ctx: CompilationContext,
    sites: CodegenSites,
    env: BuildEnv,
    x: Seq<char>,
) -> Seq<char> {
    let r5 = after_codegen(imm, env, x);
    let r4 = tagged("|knowngen="@, sites.known_codegen, r5);
    let r3 = tagged("|dyneval="@, sites.deferred_dynamic_code, r4);
    let r2 = tagged("|http2="@, context::http2_gate(ctx), r3);
    let r1 = tagged("|dgram="@, ctx.uses_dgram, r2);
    tagged("|diag="@, ctx.uses_diagnostics, mark_text(trace_only(ctx, env), "+gctrace"@) + r1)
}

proof fn lemma_settings_then(
    imm: bool,
    ctx: CompilationContext,
    sites: CodegenSites,
    env: BuildEnv,
    x: Seq<char>,
)
    ensures
        settings_text(imm, ctx, sites, env) + x == settings_then(imm, ctx, sites, env, x),
{
    let mark = mark_text(trace_only(ctx, env), "+gctrace"@);
    let size = size_text(env, imm);
    let p1 = "|diag="@ + bool_text(ctx.uses_diagnostics) + mark;
    let p2 = p1 + "|dgram="@ + bool_text(ctx.uses_dgram);
    let p3 = p2 + "|http2="@ + bool_text(context::http2_gate(ctx));
    let p4 = p3 + "|dyneval="@ + bool_text(sites.deferred_dynamic_code);
    let p5 = p4 + "|knowngen="@ + bool_text(sites.known_codegen);
    let p6 = p5 + "|sizeopt="@ + size;
    let r6 = tagged("|anchors="@, context::bitcode_link(env), x);
    lemma_tagged(p6, "|anchors="@, context::bitcode_link(env), x);
    let r5 = after_codegen(imm, env, x);
    assert(p6 + r6 =~= p5 + r5);
    let r4 = tagged("|knowngen="@, sites.known_codegen, r5);
    lemma_tagged(p4, "|knowngen="@, sites.known_codegen, r5);
    let r3 = tagged("|dyneval="@, sites.deferred_dynamic_code, r4);
    lemma_tagged(p3, "|dyneval="@, sites.deferred_dynamic_code, r4);
    let r2 = tagged("|http2="@, context::http2_gate(ctx), r3);
    lemma_tagged(p2, "|http2="@, context::http2_gate(ctx), r3);
    let r1 = tagged("|dgram="@, ctx.uses_dgram, r2);
    lemma_tagged(p1, "|dgram="@, ctx.uses_dgram, r2);
    lemma_assoc("|diag="@ + bool_text(ctx.uses_diagnostics), mark, r1);
}

proof fn lemma_trace_mark(a: bool, b: bool, x: Seq<char>, y: Seq<char>)
    requires
        mark_text(a, "+gctrace"@) + x == mark_text(b, "+gctrace"@) + y,
        x.len() > 0,
        x[0] == '|',
        y.len() > 0,
        y[0] == '|',
    ensures
        a == b,
        x == y,
{
    reveal_strlit("+gctrace");
    reveal_strlit("");
    let ma = mark_text(a, "+gctrace"@);
    let mb = mark_text(b, "+gctrace"@);
    assert("+gctrace"@[0] == '+');
    if ma.len() == 0 {
        assert(ma + x =~= x);
    } else {
        assert((ma + x)[0] == '+');
    }
    if mb.len() == 0 {
        assert(mb + y =~= y);
    } else {
        assert((mb + y)[0] == '+');
    }
    text::lemma_cancel_start(ma, x, y);
}

proof fn lemma_settings(
    imm_a: bool,
    imm_b: bool,
    ctx_a: CompilationContext,
    ctx_b: CompilationContext,
    sites_a: CodegenSites,
    sites_b: CodegenSites,
    env_a: BuildEnv,
    env_b: BuildEnv,
    x: Seq<char>,
    y: Seq<char>,
)
    requires
        settings_text(imm_a, ctx_a, sites_a, env_a) + x == settings_text(
            imm_b,
            ctx_b,
            sites_b,
            env_b,
        ) + y,
    ensures
        imm_a == imm_b,
        ctx_a.uses_diagnostics == ctx_b.uses_diagnostics,
        ctx_a.uses_dgram == ctx_b.uses_dgram,
        context::http2_gate(ctx_a) == context::http2_gate(ctx_b),
        sites_a == sites_b,
        trace_only(ctx_a, env_a) == trace_only(ctx_b, env_b),
        same_settings(env_a, env_b),
        x == y,
{
    lemma_settings_then(imm_a, ctx_a, sites_a, env_a, x);
    lemma_settings_then(imm_b, ctx_b, sites_b, env_b, y);
    let r5 = after_codegen(imm_a, env_a, x);
    let s5 = after_codegen(imm_b, env_b, y);
    let r4 = tagged("|knowngen="@, sites_a.known_codegen, r5);
    let s4 = tagged("|knowngen="@, sites_b.known_codegen, s5);
    let r3 = tagged("|dyneval="@, sites_a.deferred_dynamic_code, r4);
    let s3 = tagged("|dyneval="@, sites_b.deferred_dynamic_code, s4);
    let r2 = tagged("|http2="@, context::http2_gate(ctx_a), r3);
    let s2 = tagged("|http2="@, context::http2_gate(ctx_b), s3);
    let r1 = tagged("|dgram="@, ctx_a.uses_dgram, r2);
    let s1 = tagged("|dgram="@, ctx_b.uses_dgram, s2);
    let ta = mark_text(trace_only(ctx_a, env_a), "+gctrace"@);
    let tb = mark_text(trace_only(ctx_b, env_b), "+gctrace"@);
    lemma_decode_tagged(
        "|diag="@,
        ctx_a.uses_diagnostics,
        ctx_b.uses_diagnostics,
        ta + r1,
        tb + s1,
    );
    reveal_strlit("|dgram=");
    lemma_tagged_start("|dgram="@, ctx_a.uses_dgram, r2);
    lemma_tagged_start("|dgram="@, ctx_b.uses_dgram, s2);
    lemma_trace_mark(trace_only(ctx_a, env_a), trace_only(ctx_b, env_b), r1, s1);
    lemma_decode_tagged("|dgram="@, ctx_a.uses_dgram, ctx_b.uses_dgram, r2, s2);
    lemma_decode_tagged(
        "|http2="@,
        context::http2_gate(ctx_a),
        context::http2_gate(ctx_b),
        r3,
        s3,
    );
    lemma_decode_tagged(
        "|dyneval="@,
        sites_a.deferred_dynamic_code,
        sites_b.deferred_dynamic_code,
        r4,
        s4,
    );
    lemma_decode_tagged("|knowngen="@, sites_a.known_codegen, sites_b.known_codegen, r5, s5);
    lemma_size_text(env_a, env_b, imm_a, imm_b);
    lemma_size_text(env_b, env_a, imm_b, imm_a);
    let ca = bool_text(context::bitcode_link(env_a));
    let cb = bool_text(context::bitcode_link(env_b));
    lemma_assoc("|anchors="@, ca, x);
    lemma_assoc("|anchors="@, cb, y);
    lemma_decode_size(size_text(env_a, imm_a), size_text(env_b, imm_b), ca + x, cb + y);
    lemma_decode_bool(context::bitcode_link(env_a), context::bitcode_link(env_b), x, y);
}

proof fn lemma_decode_size(za: Seq<char>, zb: Seq<char>, x: Seq<char>, y: Seq<char>)
    requires
        !za.contains('|'),
        !zb.contains('|'),
        "|sizeopt="@ + za + ("|anchors="@ + x) == "|sizeopt="@ + zb + ("|anchors="@ + y),
    ensures
        za == zb,
        x == y,
{
    reveal_strlit("|anchors=");
    let rest = "|anchors="@.skip(1);
    assert("|anchors="@ =~= seq!['|'] + rest);
    assert("|sizeopt="@ + za + ("|anchors="@ + x) =~= "|sizeopt="@ + (za + seq!['|'] + (rest + x)));
    assert("|sizeopt="@ + zb + ("|anchors="@ + y) =~= "|sizeopt="@ + (zb + seq!['|'] + (rest + y)));
    text::lemma_cancel_start(
        "|sizeopt="@,
        za + seq!['|'] + (rest + x),
        zb + seq!['|'] + (rest + y),
    );
    text::lemma_split_at_separator(za, zb, rest + x, rest + y, '|');
    text::lemma_cancel_start(rest, x, y);
}

proof fn lemma_key_shape(
    f: Seq<char>,
    p: Seq<char>,
    b: Seq<char>,
    t: Seq<char>,
    e: Seq<char>,
    g: Seq<char>,
    s: Seq<char>,
    w: Seq<char>,
    v: Seq<char>,
)
    ensures
        f + p + b + p + t + e + g + s + w + v == f + p + (b + p + (t + (e + (g + (s + (w + v)))))),
{
    assert(f + p + b + p + t + e + g + s + w + v =~= f + p + (b + p + (t + (e + (g + (s + (w
        + v)))))));
}

proof fn lemma_key_front(
    fa: Seq<char>,
    fb: Seq<char>,
    safe_a: bool,
    safe_b: bool,
    ta: Seq<char>,
    tb: Seq<char>,
    x: Seq<char>,
    y: Seq<char>,
)
    requires
        !fa.contains('|'),
        !fb.contains('|'),
        !ta.contains('|'),
        !tb.contains('|'),
        x.len() > 0,
        x[0] == '|',
        y.len() > 0,
        y[0] == '|',
        fa + "|"@ + (bool_text(safe_a) + "|"@ + (ta + x)) == fb + "|"@ + (bool_text(safe_b) + "|"@
            + (tb + y)),
    ensures
        fa == fb,
        safe_a == safe_b,
        ta == tb,
        x == y,
{
    reveal_strlit("|");
    assert("|"@ =~= seq!['|']);
    text::lemma_split_at_separator(
        fa,
        fb,
        bool_text(safe_a) + "|"@ + (ta + x),
        bool_text(safe_b) + "|"@ + (tb + y),
        '|',
    );
    lemma_bool_text(safe_a);
    lemma_bool_text(safe_b);
    text::lemma_split_at_separator(bool_text(safe_a), bool_text(safe_b), ta + x, tb + y, '|');
    lemma_bools();
    assert(bool_text(safe_a)[0] == bool_text(safe_b)[0]);
    assert(ta + x =~= ta + seq!['|'] + x.skip(1));
    assert(tb + y =~= tb + seq!['|'] + y.skip(1));
    text::lemma_split_at_separator(ta, tb, x.skip(1), y.skip(1), '|');
    text::lemma_cancel_start(ta, x, y);
}

proof fn lemma_engines_start(ctx: CompilationContext, x: Seq<char>)
    ensures
        (engines_text(ctx) + x).len() > 0,
        (engines_text(ctx) + x)[0] == '|',
{
    lemma_engines_then(ctx, x);
    reveal_strlit("|wasm=");
    lemma_tagged_start("|wasm="@, ctx.needs_wasm_runtime, engines_rest(ctx, x));
}

proof fn lemma_globals_start(ctx: CompilationContext, x: Seq<char>)
    ensures
        (globals_text(ctx) + x).len() > 0,
        (globals_text(ctx) + x)[0] == '|',
{
    lemma_globals_then(ctx, x);
    reveal_strlit("|gns=");
    lemma_tagged_start("|gns="@, ctx.uses_global_math, globals_rest(ctx, x));
}

proof fn lemma_bool_text(b: bool)
    ensures
        !bool_text(b).contains('|'),
{
    lemma_bools();
}

/// Builds with the same key have the same features, panic mode, target, runtime
/// gates, sites of generated code, settings and version: each combination has a
/// key of its own. Features and targets hold no `|`.
pub proof fn law_key_identifies_the_build(
    features_a: Seq<char>,
    features_b: Seq<char>,
    safe_a: bool,
    safe_b: bool,
    imm_a: bool,
    imm_b: bool,
    target_a: Option<Seq<char>>,
    target_b: Option<Seq<char>>,
    ctx_a: CompilationContext,
    ctx_b: CompilationContext,
    sites_a: CodegenSites,
    sites_b: CodegenSites,
    env_a: BuildEnv,
    env_b: BuildEnv,
    version_a: Seq<char>,
    version_b: Seq<char>,
)
    requires
        !features_a.contains('|'),
        !features_b.contains('|'),
        !target_text(target_a).contains('|'),
        !target_text(target_b).contains('|'),
        cache_key(features_a, safe_a, imm_a, target_a, ctx_a, sites_a, env_a, version_a)
            == cache_key(features_b, safe_b, imm_b, target_b, ctx_b, sites_b, env_b, version_b),
    ensures
        features_a == features_b,
        safe_a == safe_b,
        imm_a == imm_b,
        target_text(target_a) == target_text(target_b),
        same_gates(ctx_a, ctx_b),
        sites_a == sites_b,
        trace_only(ctx_a, env_a) == trace_only(ctx_b, env_b),
        same_settings(env_a, env_b),
        version_a == version_b,
{
    let ta = target_text(target_a);
    let tb = target_text(target_b);
    let va = "|v="@ + version_a;
    let vb = "|v="@ + version_b;
    let sa = settings_text(imm_a, ctx_a, sites_a, env_a) + va;
    let sb = settings_text(imm_b, ctx_b, sites_b, env_b) + vb;
    let ga = globals_text(ctx_a) + sa;
    let gb = globals_text(ctx_b) + sb;
    let ea = engines_text(ctx_a) + ga;
    let eb = engines_text(ctx_b) + gb;
    lemma_key_shape(
        features_a,
        "|"@,
        bool_text(safe_a),
        ta,
        engines_text(ctx_a),
        globals_text(ctx_a),
        settings_text(imm_a, ctx_a, sites_a, env_a),
        "|v="@,
        version_a,
    );
    lemma_key_shape(
        features_b,
        "|"@,
        bool_text(safe_b),
        tb,
        engines_text(ctx_b),
        globals_text(ctx_b),
        settings_text(imm_b, ctx_b, sites_b, env_b),
        "|v="@,
        version_b,
    );
    lemma_engines_start(ctx_a, ga);
    lemma_engines_start(ctx_b, gb);
    lemma_key_front(features_a, features_b, safe_a, safe_b, ta, tb, ea, eb);
    lemma_globals_start(ctx_a, sa);
    lemma_globals_start(ctx_b, sb);
    lemma_engines(ctx_a, ctx_b, ga, gb);
    lemma_globals(ctx_a, ctx_b, sa, sb);
    lemma_settings(imm_a, imm_b, ctx_a, ctx_b, sites_a, sites_b, env_a, env_b, va, vb);
    text::lemma_cancel_start("|v="@, version_a, version_b);
}

spec fn same_requests(a: Seq<Seq<char>>, b: Seq<Seq<char>>) -> bool {
    a == b
}

proof fn lemma_engine_requests_keyed(a: CompilationContext, b: CompilationContext, dynamic: bool)
    requires
        same_gates(a, b),
    ensures
        same_requests(
            cross_features::engine_requests(a, dynamic),
            cross_features::engine_requests(b, dynamic),
        ),
{
}

proof fn lemma_global_requests_keyed(a: CompilationContext, b: CompilationContext, dynamic: bool)
    requires
        same_gates(a, b),
    ensures
        same_requests(
            cross_features::global_requests(a, dynamic),
            cross_features::global_requests(b, dynamic),
        ),
{
}

proof fn lemma_closing_requests_keyed(
    a: CompilationContext,
    b: CompilationContext,
    sites: CodegenSites,
    env_a: BuildEnv,
    env_b: BuildEnv,
)
    requires
        same_gates(a, b),
        trace_only(a, env_a) == trace_only(b, env_b),
        same_settings(env_a, env_b),
    ensures
        same_requests(
            cross_features::closing_requests(a, sites, env_a),
            cross_features::closing_requests(b, sites, env_b),
        ),
{
}

/// Builds with the same key request the same features, where the stdlib and the
/// command line ask for the same: nothing that a program gates tells two archives
/// apart that the key does not. Features and targets hold no `|`.
pub proof fn law_key_fixes_the_requests(
    features_a: Seq<char>,
    features_b: Seq<char>,
    safe_a: bool,
    safe_b: bool,
    imm_a: bool,
    imm_b: bool,
    target_a: Option<Seq<char>>,
    target_b: Option<Seq<char>>,
    ctx_a: CompilationContext,
    ctx_b: CompilationContext,
    sites_a: CodegenSites,
    sites_b: CodegenSites,
    env_a: BuildEnv,
    env_b: BuildEnv,
    version_a: Seq<char>,
    version_b: Seq<char>,
    stdlib_features: Set<Seq<char>>,
    cli_features: Seq<Seq<char>>,
)
    requires
        !features_a.contains('|'),
        !features_b.contains('|'),
        !target_text(target_a).contains('|'),
        !target_text(target_b).contains('|'),
        cache_key(features_a, safe_a, imm_a, target_a, ctx_a, sites_a, env_a, version_a)
            == cache_key(features_b, safe_b, imm_b, target_b, ctx_b, sites_b, env_b, version_b),
    ensures
        cross_features::cross_features(ctx_a, stdlib_features, cli_features, sites_a, env_a)
            == cross_features::cross_features(
            ctx_b,
            stdlib_features,
            cli_features,
            sites_b,
            env_b,
        ),
{
    law_key_identifies_the_build(
        features_a,
        features_b,
        safe_a,
        safe_b,
        imm_a,
        imm_b,
        target_a,
        target_b,
        ctx_a,
        ctx_b,
        sites_a,
        sites_b,
        env_a,
        env_b,
        version_a,
        version_b,
    );
    lemma_same_requests(ctx_a, ctx_b, sites_a, env_a, env_b, stdlib_features, cli_features);
}

proof fn lemma_same_requests(
    ctx_a: CompilationContext,
    ctx_b: CompilationContext,
    sites: CodegenSites,
    env_a: BuildEnv,
    env_b: BuildEnv,
    features: Set<Seq<char>>,
    cli_features: Seq<Seq<char>>,
)
    requires
        same_gates(ctx_a, ctx_b),
        trace_only(ctx_a, env_a) == trace_only(ctx_b, env_b),
        same_settings(env_a, env_b),
    ensures
        same_requests(
            cross_features::cross_features(ctx_a, features, cli_features, sites, env_a),
            cross_features::cross_features(ctx_b, features, cli_features, sites, env_b),
        ),
{
    lemma_engine_requests_keyed(ctx_a, ctx_b, sites.deferred_dynamic_code);
    lemma_global_requests_keyed(ctx_a, ctx_b, sites.deferred_dynamic_code);
    lemma_closing_requests_keyed(ctx_a, ctx_b, sites, env_a, env_b);
}

/// A flag as it is written.
pub open spec fn flag(b: bool) -> Seq<char> {
    if b {
        "true"@
    } else {
        "false"@
    }
}

/// `mark` where `set` holds, and nothing otherwise.
pub open spec fn set_mark(set: bool, mark: Seq<char>) -> Seq<char> {
    if set {
        mark
    } else {
        Seq::empty()
    }
}

/// The fields of the key on the engines of the runtime.
#[verifier::opaque]
pub open spec fn engine_fields(ctx: CompilationContext) -> Seq<Seq<char>> {
    seq![
        "wasm="@ + flag(ctx.needs_wasm_runtime),
        "regex="@ + flag(ctx.uses_regex),
        "temporal="@ + flag(ctx.uses_temporal),
        "ee="@ + flag(ctx.uses_event_emitter),
        "url="@ + flag(ctx.uses_url),
        "norm="@ + flag(ctx.uses_string_normalize),
        "seg="@ + flag(ctx.uses_intl_segmenter),
        "loc="@ + flag(ctx.uses_intl_locale),
        "intlns="@ + flag(ctx.uses_intl_namespace) + set_mark(
            ctx.uses_intl_datetime,
            "+datetime"@,
        ) + set_mark(ctx.uses_fetch, "+fetch"@),
    ]
}

/// The field of the key on the namespaces.
#[verifier::opaque]
pub open spec fn namespaces_field(ctx: CompilationContext) -> Seq<char> {
    "gns="@ + flag(ctx.uses_global_math)
        + flag(ctx.uses_global_json)
        + flag(ctx.uses_global_reflect)
        + flag(ctx.uses_global_atomics)
        + flag(ctx.uses_global_url)
        + flag(ctx.uses_global_text)
        + flag(ctx.uses_global_websocket)
        + flag(ctx.uses_global_webcrypto)
        + flag(ctx.uses_global_webfetch)
        + flag(ctx.uses_proc_ipc)
}

/// The field of the key on the size settings.
pub open spec fn size_field(env: BuildEnv, panic_immediate: bool) -> Seq<char> {
    let level = if env.size_opt is Some && env.size_opt->0@ == "z"@ {
        "z"@
    } else if env.size_opt is Some && env.size_opt->0@ == "s"@ {
        "s"@
    } else {
        "off"@
    };
    "sizeopt="@ + (level + set_mark(
        env.size_lto is Some && env.size_lto->0@ == "fat"@,
        "+fatlto"@,
    ) + set_mark(panic_immediate, "+panicimm"@))
}

/// The fields of the key on modules, generated code and build settings.
#[verifier::opaque]
pub open spec fn settings_fields(
    panic_immediate: bool,
    ctx: CompilationContext,
    sites: CodegenSites,
    env: BuildEnv,
) -> Seq<Seq<char>> {
    seq![
        "diag="@ + flag(ctx.uses_diagnostics) + set_mark(
            context::gc_trace(env) && !ctx.uses_diagnostics,
            "+gctrace"@,
        ),
        "dgram="@ + flag(ctx.uses_dgram),
        "http2="@ + flag(
            ctx.native_module_imports@.contains("http2"@) || ctx.uses_get_builtin_module,
        ),
        "dyneval="@ + flag(sites.deferred_dynamic_code),
        "knowngen="@ + flag(sites.known_codegen),
        size_field(env, panic_immediate),
        "anchors="@ + flag(env.bitcode_link is Some && env.bitcode_link->0@ == "1"@),
    ]
}

/// `fields`, each behind a bar.
spec fn barred(fields: Seq<Seq<char>>) -> Seq<char>
    decreases fields.len(),
{
    if fields.len() == 0 {
        Seq::empty()
    } else {
        barred(fields.drop_last()) + "|"@ + fields.last()
    }
}

proof fn lemma_barred_push(fields: Seq<Seq<char>>, x: Seq<char>)
    ensures
        barred(fields.push(x)) == barred(fields) + "|"@ + x,
{
    assert(fields.push(x).drop_last() =~= fields);
}

proof fn lemma_barred_tagged(
    fields: Seq<Seq<char>>,
    p: Seq<char>,
    bar_tag: Seq<char>,
    tag: Seq<char>,
    value: Seq<char>,
)
    requires
        p == barred(fields),
        bar_tag == "|"@ + tag,
    ensures
        p + bar_tag + value == barred(fields.push(tag + value)),
{
    lemma_barred_push(fields, tag + value);
    assert(p + ("|"@ + tag) + value =~= p + "|"@ + (tag + value));
}

proof fn lemma_barred_more(fields: Seq<Seq<char>>, x: Seq<char>, p: Seq<char>, more: Seq<char>)
    requires
        p == barred(fields.push(x)),
    ensures
        p + more == barred(fields.push(x + more)),
{
    lemma_barred_push(fields, x);
    lemma_barred_push(fields, x + more);
    assert(barred(fields) + "|"@ + x + more =~= barred(fields) + "|"@ + (x + more));
}

proof fn lemma_joined_barred(list: Seq<Seq<char>>, fields: Seq<Seq<char>>)
    requires
        list.len() > 0,
    ensures
        text::joined(list + fields, "|"@) == text::joined(list, "|"@) + barred(fields),
    decreases fields.len(),
{
    if fields.len() == 0 {
        assert(list + fields =~= list);
        assert(text::joined(list, "|"@) + barred(fields) =~= text::joined(list, "|"@));
    } else {
        let rest = fields.drop_last();
        lemma_joined_barred(list, rest);
        assert(list + fields =~= (list + rest).push(fields.last()));
        text::law_joined_reads_piece_by_piece(list + rest, fields.last(), "|"@);
        assert(text::joined(list, "|"@) + barred(rest) + "|"@ + fields.last() =~= text::joined(
            list,
            "|"@,
        ) + (barred(rest) + "|"@ + fields.last()));
    }
}

proof fn lemma_flags(b: bool)
    ensures
        bool_text(b) == flag(b),
{
}

proof fn lemma_set_mark(set: bool, mark: Seq<char>)
    ensures
        mark_text(set, mark) == set_mark(set, mark),
{
    reveal_strlit("");
    assert(""@ =~= Seq::empty());
}

proof fn lemma_bar_tags()
    ensures
        "|wasm="@ == "|"@ + "wasm="@,
        "|regex="@ == "|"@ + "regex="@,
        "|temporal="@ == "|"@ + "temporal="@,
        "|ee="@ == "|"@ + "ee="@,
        "|url="@ == "|"@ + "url="@,
        "|norm="@ == "|"@ + "norm="@,
        "|seg="@ == "|"@ + "seg="@,
        "|loc="@ == "|"@ + "loc="@,
        "|intlns="@ == "|"@ + "intlns="@,
        "|gns="@ == "|"@ + "gns="@,
        "|diag="@ == "|"@ + "diag="@,
        "|dgram="@ == "|"@ + "dgram="@,
        "|http2="@ == "|"@ + "http2="@,
        "|dyneval="@ == "|"@ + "dyneval="@,
        "|knowngen="@ == "|"@ + "knowngen="@,
        "|sizeopt="@ == "|"@ + "sizeopt="@,
        "|anchors="@ == "|"@ + "anchors="@,
        "|v="@ == "|"@ + "v="@,
{
    reveal_strlit("|");
    reveal_strlit("|wasm=");
    reveal_strlit("wasm=");
    assert("|wasm="@ =~= "|"@ + "wasm="@);
    reveal_strlit("|regex=");
    reveal_strlit("regex=");
    assert("|regex="@ =~= "|"@ + "regex="@);
    reveal_strlit("|temporal=");
    reveal_strlit("temporal=");
    assert("|temporal="@ =~= "|"@ + "temporal="@);
    reveal_strlit("|ee=");
    reveal_strlit("ee=");
    assert("|ee="@ =~= "|"@ + "ee="@);
    reveal_strlit("|url=");
    reveal_strlit("url=");
    assert("|url="@ =~= "|"@ + "url="@);
    reveal_strlit("|norm=");
    reveal_strlit("norm=");
    assert("|norm="@ =~= "|"@ + "norm="@);
    reveal_strlit("|seg=");
    reveal_strlit("seg=");
    assert("|seg="@ =~= "|"@ + "seg="@);
    reveal_strlit("|loc=");
    reveal_strlit("loc=");
    assert("|loc="@ =~= "|"@ + "loc="@);
    reveal_strlit("|intlns=");
    reveal_strlit("intlns=");
    assert("|intlns="@ =~= "|"@ + "intlns="@);
    reveal_strlit("|gns=");
    reveal_strlit("gns=");
    assert("|gns="@ =~= "|"@ + "gns="@);
    reveal_strlit("|diag=");
    reveal_strlit("diag=");
    assert("|diag="@ =~= "|"@ + "diag="@);
    reveal_strlit("|dgram=");
    reveal_strlit("dgram=");
    assert("|dgram="@ =~= "|"@ + "dgram="@);
    reveal_strlit("|http2=");
    reveal_strlit("http2=");
    assert("|http2="@ =~= "|"@ + "http2="@);
    reveal_strlit("|dyneval=");
    reveal_strlit("dyneval=");
    assert("|dyneval="@ =~= "|"@ + "dyneval="@);
    reveal_strlit("|knowngen=");
    reveal_strlit("knowngen=");
    assert("|knowngen="@ =~= "|"@ + "knowngen="@);
    reveal_strlit("|sizeopt=");
    reveal_strlit("sizeopt=");
    assert("|sizeopt="@ =~= "|"@ + "sizeopt="@);
    reveal_strlit("|anchors=");
    reveal_strlit("anchors=");
    assert("|anchors="@ =~= "|"@ + "anchors="@);
    reveal_strlit("|v=");
    reveal_strlit("v=");
    assert("|v="@ =~= "|"@ + "v="@);
}

proof fn lemma_engine_fields(ctx: CompilationContext)
    ensures
        engines_text(ctx) == barred(engine_fields(ctx)),
{
    reveal(engine_fields);
    lemma_bar_tags();
    let none = Seq::<Seq<char>>::empty();
    assert(barred(none) =~= Seq::empty());
    let l1 = none.push("wasm="@ + flag(ctx.needs_wasm_runtime));
    let p1 = "|wasm="@ + bool_text(ctx.needs_wasm_runtime);
    lemma_barred_tagged(none, Seq::empty(), "|wasm="@, "wasm="@, flag(ctx.needs_wasm_runtime));
    assert(Seq::<char>::empty() + "|wasm="@ + flag(ctx.needs_wasm_runtime) =~= p1);
    let l2 = l1.push("regex="@ + flag(ctx.uses_regex));
    let p2 = p1 + "|regex="@ + bool_text(ctx.uses_regex);
    lemma_barred_tagged(l1, p1, "|regex="@, "regex="@, flag(ctx.uses_regex));
    let l3 = l2.push("temporal="@ + flag(ctx.uses_temporal));
    let p3 = p2 + "|temporal="@ + bool_text(ctx.uses_temporal);
    lemma_barred_tagged(l2, p2, "|temporal="@, "temporal="@, flag(ctx.uses_temporal));
    let l4 = l3.push("ee="@ + flag(ctx.uses_event_emitter));
    let p4 = p3 + "|ee="@ + bool_text(ctx.uses_event_emitter);
    lemma_barred_tagged(l3, p3, "|ee="@, "ee="@, flag(ctx.uses_event_emitter));
    let l5 = l4.push("url="@ + flag(ctx.uses_url));
    let p5 = p4 + "|url="@ + bool_text(ctx.uses_url);
    lemma_barred_tagged(l4, p4, "|url="@, "url="@, flag(ctx.uses_url));
    let l6 = l5.push("norm="@ + flag(ctx.uses_string_normalize));
    let p6 = p5 + "|norm="@ + bool_text(ctx.uses_string_normalize);
    lemma_barred_tagged(l5, p5, "|norm="@, "norm="@, flag(ctx.uses_string_normalize));
    let l7 = l6.push("seg="@ + flag(ctx.uses_intl_segmenter));
    let p7 = p6 + "|seg="@ + bool_text(ctx.uses_intl_segmenter);
    lemma_barred_tagged(l6, p6, "|seg="@, "seg="@, flag(ctx.uses_intl_segmenter));
    let l8 = l7.push("loc="@ + flag(ctx.uses_intl_locale));
    let p8 = p7 + "|loc="@ + bool_text(ctx.uses_intl_locale);
    lemma_barred_tagged(l7, p7, "|loc="@, "loc="@, flag(ctx.uses_intl_locale));
    let l9 = l8.push("intlns="@ + flag(ctx.uses_intl_namespace));
    let p9 = p8 + "|intlns="@ + bool_text(ctx.uses_intl_namespace);
    lemma_barred_tagged(l8, p8, "|intlns="@, "intlns="@, flag(ctx.uses_intl_namespace));
    let x = "intlns="@ + flag(ctx.uses_intl_namespace);
    let m1 = set_mark(ctx.uses_intl_datetime, "+datetime"@);
    let m2 = set_mark(ctx.uses_fetch, "+fetch"@);
    lemma_set_mark(ctx.uses_intl_datetime, "+datetime"@);
    lemma_set_mark(ctx.uses_fetch, "+fetch"@);
    lemma_barred_more(l8, x, p9, m1 + m2);
    lemma_assoc(x, m1, m2);
    assert(engine_fields(ctx) =~= l8.push(x + m1 + m2));
}

proof fn lemma_namespaces_field(ctx: CompilationContext)
    ensures
        globals_text(ctx) == "|"@ + namespaces_field(ctx),
{
    reveal(namespaces_field);
    lemma_bar_tags();
    let q1 = "gns="@ + flag(ctx.uses_global_math);
    lemma_assoc("|"@, "gns="@, flag(ctx.uses_global_math));
    let q2 = q1 + flag(ctx.uses_global_json);
    lemma_assoc("|"@, q1, flag(ctx.uses_global_json));
    let q3 = q2 + flag(ctx.uses_global_reflect);
    lemma_assoc("|"@, q2, flag(ctx.uses_global_reflect));
    let q4 = q3 + flag(ctx.uses_global_atomics);
    lemma_assoc("|"@, q3, flag(ctx.uses_global_atomics));
    let q5 = q4 + flag(ctx.uses_global_url);
    lemma_assoc("|"@, q4, flag(ctx.uses_global_url));
    let q6 = q5 + flag(ctx.uses_global_text);
    lemma_assoc("|"@, q5, flag(ctx.uses_global_text));
    let q7 = q6 + flag(ctx.uses_global_websocket);
    lemma_assoc("|"@, q6, flag(ctx.uses_global_websocket));
    let q8 = q7 + flag(ctx.uses_global_webcrypto);
    lemma_assoc("|"@, q7, flag(ctx.uses_global_webcrypto));
    let q9 = q8 + flag(ctx.uses_global_webfetch);
    lemma_assoc("|"@, q8, flag(ctx.uses_global_webfetch));
    let q10 = q9 + flag(ctx.uses_proc_ipc);
    lemma_assoc("|"@, q9, flag(ctx.uses_proc_ipc));
}

proof fn lemma_settings_fields(
    imm: bool,
    ctx: CompilationContext,
    sites: CodegenSites,
    env: BuildEnv,
)
    ensures
        settings_text(imm, ctx, sites, env) == barred(settings_fields(imm, ctx, sites, env)),
{
    reveal(settings_fields);
    lemma_bar_tags();
    let none = Seq::<Seq<char>>::empty();
    assert(barred(none) =~= Seq::empty());
    let d = flag(ctx.uses_diagnostics);
    let mark = set_mark(trace_only(ctx, env), "+gctrace"@);
    lemma_set_mark(trace_only(ctx, env), "+gctrace"@);
    lemma_barred_tagged(none, Seq::empty(), "|diag="@, "diag="@, d);
    assert(Seq::<char>::empty() + "|diag="@ + d =~= "|diag="@ + d);
    lemma_barred_more(none, "diag="@ + d, "|diag="@ + d, mark);
    let l1 = none.push("diag="@ + d + mark);
    let p1 = "|diag="@ + d + mark;
    let l2 = l1.push("dgram="@ + flag(ctx.uses_dgram));
    let p2 = p1 + "|dgram="@ + flag(ctx.uses_dgram);
    lemma_barred_tagged(l1, p1, "|dgram="@, "dgram="@, flag(ctx.uses_dgram));
    let l3 = l2.push("http2="@ + flag(context::http2_gate(ctx)));
    let p3 = p2 + "|http2="@ + flag(context::http2_gate(ctx));
    lemma_barred_tagged(l2, p2, "|http2="@, "http2="@, flag(context::http2_gate(ctx)));
    let l4 = l3.push("dyneval="@ + flag(sites.deferred_dynamic_code));
    let p4 = p3 + "|dyneval="@ + flag(sites.deferred_dynamic_code);
    lemma_barred_tagged(l3, p3, "|dyneval="@, "dyneval="@, flag(sites.deferred_dynamic_code));
    let l5 = l4.push("knowngen="@ + flag(sites.known_codegen));
    let p5 = p4 + "|knowngen="@ + flag(sites.known_codegen);
    lemma_barred_tagged(l4, p4, "|knowngen="@, "knowngen="@, flag(sites.known_codegen));
    let l6 = l5.push("sizeopt="@ + size_text(env, imm));
    let p6 = p5 + "|sizeopt="@ + size_text(env, imm);
    lemma_barred_tagged(l5, p5, "|sizeopt="@, "sizeopt="@, size_text(env, imm));
    let l7 = l6.push("anchors="@ + flag(context::bitcode_link(env)));
    let p7 = p6 + "|anchors="@ + flag(context::bitcode_link(env));
    lemma_barred_tagged(l6, p6, "|anchors="@, "anchors="@, flag(context::bitcode_link(env)));
    lemma_set_mark(context::fat_lto(env), "+fatlto"@);
    lemma_set_mark(imm, "+panicimm"@);
    assert("sizeopt="@ + size_text(env, imm) == size_field(env, imm));
    assert(settings_fields(imm, ctx, sites, env) =~= l7);
}

/// The key reads field by field, with bars between the fields: the features, the
/// panic mode, the target, each engine, the namespaces, each module and setting,
/// and the version.
pub proof fn law_key_reads_field_by_field(
    feature_arg: Seq<char>,
    panic_abort_safe: bool,
    panic_immediate: bool,
    target: Option<Seq<char>>,
    ctx: CompilationContext,
    sites: CodegenSites,
    env: BuildEnv,
    version: Seq<char>,
)
    ensures
        cache_key(
            feature_arg,
            panic_abort_safe,
            panic_immediate,
            target,
            ctx,
            sites,
            env,
            version,
        ) == text::joined(
            seq![
                feature_arg,
                flag(panic_abort_safe),
                if target is Some {
                    target->0
                } else {
                    "host"@
                },
            ] + engine_fields(ctx) + seq![namespaces_field(ctx)] + settings_fields(
                panic_immediate,
                ctx,
                sites,
                env,
            ) + seq!["v="@ + version],
            "|"@,
        ),
{
    let t = target_text(target);
    let f1 = seq![feature_arg];
    let f2 = f1.push(flag(panic_abort_safe));
    let f3 = f2.push(t);
    text::law_joined_reads_piece_by_piece(f1, feature_arg, "|"@);
    text::law_joined_reads_piece_by_piece(f1, flag(panic_abort_safe), "|"@);
    text::law_joined_reads_piece_by_piece(f2, t, "|"@);
    assert(f3 =~= seq![
        feature_arg,
        flag(panic_abort_safe),
        if target is Some {
            target->0
        } else {
            "host"@
        },
    ]);
    assert(f1 =~= seq![feature_arg]);
    assert(text::joined(f3, "|"@) == feature_arg + "|"@ + bool_text(panic_abort_safe) + "|"@ + t);
    lemma_engine_fields(ctx);
    lemma_namespaces_field(ctx);
    lemma_settings_fields(panic_immediate, ctx, sites, env);
    lemma_bar_tags();
    lemma_fields(
        f3,
        engine_fields(ctx),
        namespaces_field(ctx),
        settings_fields(panic_immediate, ctx, sites, env),
        "v="@,
        version,
    );
}

proof fn lemma_fields(
    front: Seq<Seq<char>>,
    engines: Seq<Seq<char>>,
    namespaces: Seq<char>,
    settings: Seq<Seq<char>>,
    tag: Seq<char>,
    version: Seq<char>,
)
    requires
        front.len() > 0,
    ensures
        text::joined(
            front + engines + seq![namespaces] + settings + seq![tag + version],
            "|"@,
        ) == text::joined(front, "|"@) + barred(engines) + ("|"@ + namespaces) + barred(settings)
            + ("|"@ + tag) + version,
{
    let a = front + engines;
    let b = a + seq![namespaces];
    let c = b + settings;
    lemma_joined_barred(front, engines);
    lemma_joined_barred(a, seq![namespaces]);
    lemma_barred_one(namespaces);
    lemma_joined_barred(b, settings);
    lemma_joined_barred(c, seq![tag + version]);
    lemma_barred_one(tag + version);
    lemma_assoc("|"@, tag, version);
    lemma_assoc(text::joined(c, "|"@), "|"@ + tag, version);
}

proof fn lemma_barred_one(x: Seq<char>)
    ensures
        barred(seq![x]) == "|"@ + x,
{
    let none = Seq::<Seq<char>>::empty();
    lemma_barred_push(none, x);
    assert(seq![x] =~= none.push(x));
    assert(barred(none) + "|"@ + x =~= "|"@ + x);
}

} // verus!
