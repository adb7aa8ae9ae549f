//! The build stamp of auto-optimized archives.
use crate::bindings::Binding;
use crate::cache_key;
use crate::text;
use vstd::prelude::*;

verus! {

/// The texts of a binding.
pub open spec fn binding_text(b: Binding) -> Seq<char> {
    b.0@ + ":"@ + b.1@ + ":"@ + match b.2 {
        Some(tracking) => tracking@,
        None => Seq::<char>::empty(),
    }
}

/// `pieces` with commas between them.
pub open spec fn joined(pieces: Seq<Seq<char>>) -> Seq<char> {
    text::joined(pieces, ","@)
}

/// Whether each piece is not empty and holds no comma.
pub open spec fn plain_list(pieces: Seq<Seq<char>>) -> bool {
    &&& text::none_holds(pieces, ',')
    &&& forall|i: int| 0 <= i < pieces.len() ==> (#[trigger] pieces[i]).len() > 0
}

/// The texts of bindings.
pub open spec fn binding_texts(bindings: Seq<Binding>) -> Seq<Seq<char>> {
    bindings.map_values(|b: Binding| binding_text(b))
}

/// The build stamp, line by line.
pub open spec fn build_stamp(
    key_input: Seq<char>,
    target: Option<Seq<char>>,
    triple: Option<Seq<char>>,
    cross_features: Seq<Seq<char>>,
    bindings: Seq<Binding>,
    source_fingerprint: Seq<char>,
) -> Seq<char> {
    "perry-auto-optimized-v2\n"@
        + "key="@ + key_input + "\n"@
        + "target="@ + cache_key::target_text(target) + "\n"@
        + "triple="@ + cache_key::target_text(triple) + "\n"@
        + "features="@ + joined(cross_features) + "\n"@
        + "tokio="@ + joined(binding_texts(bindings)) + "\n"@
        + "srcs="@ + source_fingerprint + "\n"@
}

/// `names` with commas between them.
fn join_names(names: &[String]) -> (out: String)
    ensures
        out@ == joined(text::views(names@)),
{
    let mut out = String::new();
    let ghost all = text::views(names@);
    let mut i: usize = 0;
    proof {
        assert(all.take(0) =~= Seq::empty());
    }
    while i < names.len()
        invariant
            i <= names@.len(),
            all == text::views(names@),
            out@ == joined(all.take(i as int)),
        decreases names@.len() - i,
    {
        proof {
            assert(all.take(i + 1).drop_last() =~= all.take(i as int));
            assert(all.take(i + 1).last() == names@[i as int]@);
        }
        if i > 0 {
            out.append(",");
        }
        out.append(names[i].as_str());
        proof {
            if i == 0 {
                assert(out@ =~= names@[0]@);
            }
        }
        i = i + 1;
    }
    proof {
        assert(all.take(all.len() as int) =~= all);
    }
    out
}

/// The texts of the bindings with commas between them.
fn join_bindings(tokio_using_bindings: &[Binding]) -> (out: String)
    ensures
        out@ == joined(binding_texts(tokio_using_bindings@)),
{
    let mut out = String::new();
    let ghost all = binding_texts(tokio_using_bindings@);
    let mut i: usize = 0;
    proof {
        assert(all.take(0) =~= Seq::empty());
    }
    while i < tokio_using_bindings.len()
        invariant
            i <= tokio_using_bindings@.len(),
            all == binding_texts(tokio_using_bindings@),
            out@ == joined(all.take(i as int)),
        decreases tokio_using_bindings@.len() - i,
    {
        let binding = &tokio_using_bindings[i];
        proof {
            assert(all.take(i + 1).drop_last() =~= all.take(i as int));
            assert(all.take(i + 1).last() == binding_text(*binding));
        }
        if i > 0 {
            out.append(",");
        }
        let ghost before = out@;
        out.append(binding.0.as_str());
        out.append(":");
        out.append(binding.1.as_str());
        out.append(":");
        match &binding.2 {
            Some(tracking) => out.append(tracking.as_str()),
            None => {},
        }
        proof {
            assert(out@ =~= before + binding_text(*binding));
            if i == 0 {
                assert(out@ =~= binding_text(*binding));
            }
        }
        i = i + 1;
    }
    proof {
        assert(all.take(all.len() as int) =~= all);
    }
    out
}

/// The build stamp of archives: how they were built, and, by the fingerprint,
/// from WHAT. `triple` is the Rust target triple of `target`.
pub fn auto_optimized_build_stamp(
    key_input: &str,
    target: Option<&str>,
    triple: Option<&str>,
    cross_features: &[String],
    tokio_using_bindings: &[Binding],
    source_fingerprint: &str,
) -> (stamp: String)
    ensures
        stamp@ == build_stamp(
            key_input@,
            text::opt_str_view(target),
            text::opt_str_view(triple),
            text::views(cross_features@),
            tokio_using_bindings@,
            source_fingerprint@,
        ),
{
    let mut stamp = "perry-auto-optimized-v2\n".to_owned();
    stamp.append("key=");
    stamp.append(key_input);
    stamp.append("\n");
    stamp.append("target=");
    stamp.append(
        match target {
            Some(name) => name,
            None => "host",
        },
    );
    stamp.append("\n");
    stamp.append("triple=");
    stamp.append(
        match triple {
            Some(name) => name,
            None => "host",
        },
    );
    stamp.append("\n");
    stamp.append("features=");
    stamp.append(join_names(cross_features).as_str());
    stamp.append("\n");
    stamp.append("tokio=");
    stamp.append(join_bindings(tokio_using_bindings).as_str());
    stamp.append("\n");
    // Source-content fingerprint: ties the stamp to WHAT the archives were
    // built from, not just how.
    stamp.append("srcs=");
    stamp.append(source_fingerprint);
    stamp.append("\n");
    stamp
}

proof fn lemma_last_line(
    x: Seq<char>,
    y: Seq<char>,
    tag: Seq<char>,
    a: Seq<char>,
    b: Seq<char>,
)
    requires
        !tag.contains('\n'),
        !a.contains('\n'),
        !b.contains('\n'),
        x + "\n"@ + tag + a == y + "\n"@ + tag + b,
    ensures
        x == y,
        a == b,
{
    reveal_strlit("\n");
    assert("\n"@ =~= seq!['\n']);
    assert(x + "\n"@ + tag + a =~= x + seq!['\n'] + (tag + a));
    assert(y + "\n"@ + tag + b =~= y + seq!['\n'] + (tag + b));
    assert forall|s: Seq<char>| !s.contains('\n') implies !(#[trigger] (tag + s)).contains('\n') by {
        if (tag + s).contains('\n') {
            let i = (tag + s).index_of('\n');
            if i < tag.len() {
                assert(tag[i] == '\n');
            } else {
                assert(s[i - tag.len()] == '\n');
            }
        }
    }
    text::lemma_split_at_last_separator(x, y, tag + a, tag + b, '\n');
    text::lemma_cancel_start(tag, a, b);
}

proof fn lemma_tags()
    ensures
        !"target="@.contains('\n'),
        !"triple="@.contains('\n'),
        !"features="@.contains('\n'),
        !"tokio="@.contains('\n'),
        !"srcs="@.contains('\n'),
{
    reveal_strlit("target=");
    reveal_strlit("triple=");
    reveal_strlit("features=");
    reveal_strlit("tokio=");
    reveal_strlit("srcs=");
}

/// Stamps of different sources differ, however else the builds differ or agree:
/// a stamp determines the fingerprint in it.
pub proof fn law_stamp_identifies_the_sources(
    key_a: Seq<char>,
    key_b: Seq<char>,
    target_a: Option<Seq<char>>,
    target_b: Option<Seq<char>>,
    triple_a: Option<Seq<char>>,
    triple_b: Option<Seq<char>>,
    features_a: Seq<Seq<char>>,
    features_b: Seq<Seq<char>>,
    bindings_a: Seq<Binding>,
    bindings_b: Seq<Binding>,
    sources_a: Seq<char>,
    sources_b: Seq<char>,
)
    requires
        !sources_a.contains('\n'),
        !sources_b.contains('\n'),
        build_stamp(key_a, target_a, triple_a, features_a, bindings_a, sources_a) == build_stamp(
            key_b,
            target_b,
            triple_b,
            features_b,
            bindings_b,
            sources_b,
        ),
    ensures
        sources_a == sources_b,
{
    lemma_tags();
    let a = "perry-auto-optimized-v2\n"@ + "key="@ + key_a + "\n"@ + "target="@
        + cache_key::target_text(target_a) + "\n"@ + "triple="@ + cache_key::target_text(triple_a)
        + "\n"@ + "features="@ + joined(features_a) + "\n"@ + "tokio="@ + joined(
        binding_texts(bindings_a),
    );
    let b = "perry-auto-optimized-v2\n"@ + "key="@ + key_b + "\n"@ + "target="@
        + cache_key::target_text(target_b) + "\n"@ + "triple="@ + cache_key::target_text(triple_b)
        + "\n"@ + "features="@ + joined(features_b) + "\n"@ + "tokio="@ + joined(
        binding_texts(bindings_b),
    );
    text::lemma_cancel_end(
        a + "\n"@ + "srcs="@ + sources_a,
        b + "\n"@ + "srcs="@ + sources_b,
        "\n"@,
    );
    lemma_last_line(a, b, "srcs="@, sources_a, sources_b);
}

proof fn lemma_plain_lists(a: Seq<Seq<char>>, b: Seq<Seq<char>>)
    requires
        plain_list(a),
        plain_list(b),
        joined(a) == joined(b),
    ensures
        a == b,
{
    reveal_strlit(",");
    assert(","@ =~= seq![',']);
    if a.len() > 0 {
        assert(a.last() == a[a.len() - 1]);
        text::lemma_joined_not_empty(a, ","@);
    }
    if b.len() > 0 {
        assert(b.last() == b[b.len() - 1]);
        text::lemma_joined_not_empty(b, ","@);
    }
    if a.len() > 0 && b.len() > 0 {
        text::lemma_joined_injective(a, b, ',');
    } else {
        assert(a =~= b);
    }
}

/// Where no line is broken by what stands in it, equal stamps were made from
/// the same key, target, triple, features, bindings and sources, as far as the
/// lines spell them: the features and the texts of the bindings are the same
/// lists, where they are not empty and hold no comma.
pub proof fn law_stamp_identifies_every_line(
    key_a: Seq<char>,
    key_b: Seq<char>,
    target_a: Option<Seq<char>>,
    target_b: Option<Seq<char>>,
    triple_a: Option<Seq<char>>,
    triple_b: Option<Seq<char>>,
    features_a: Seq<Seq<char>>,
    features_b: Seq<Seq<char>>,
    bindings_a: Seq<Binding>,
    bindings_b: Seq<Binding>,
    sources_a: Seq<char>,
    sources_b: Seq<char>,
)
    requires
        !cache_key::target_text(target_a).contains('\n'),
        !cache_key::target_text(target_b).contains('\n'),
        !cache_key::target_text(triple_a).contains('\n'),
        !cache_key::target_text(triple_b).contains('\n'),
        !joined(features_a).contains('\n'),
        !joined(features_b).contains('\n'),
        !joined(binding_texts(bindings_a)).contains('\n'),
        !joined(binding_texts(bindings_b)).contains('\n'),
        !sources_a.contains('\n'),
        !sources_b.contains('\n'),
        build_stamp(key_a, target_a, triple_a, features_a, bindings_a, sources_a) == build_stamp(
            key_b,
            target_b,
            triple_b,
            features_b,
            bindings_b,
            sources_b,
        ),
    ensures
        key_a == key_b,
        cache_key::target_text(target_a) == cache_key::target_text(target_b),
        cache_key::target_text(triple_a) == cache_key::target_text(triple_b),
        joined(features_a) == joined(features_b),
        joined(binding_texts(bindings_a)) == joined(binding_texts(bindings_b)),
        plain_list(features_a) && plain_list(features_b) ==> features_a == features_b,
        plain_list(binding_texts(bindings_a)) && plain_list(binding_texts(bindings_b))
            ==> binding_texts(bindings_a) == binding_texts(bindings_b),
        sources_a == sources_b,
{
    lemma_tags();
    let ta = cache_key::target_text(target_a);
    let tb = cache_key::target_text(target_b);
    let ra = cache_key::target_text(triple_a);
    let rb = cache_key::target_text(triple_b);
    let fa = joined(features_a);
    let fb = joined(features_b);
    let ba = joined(binding_texts(bindings_a));
    let bb = joined(binding_texts(bindings_b));
    let head = "perry-auto-optimized-v2\n"@ + "key="@;
    let a1 = head + key_a;
    let b1 = head + key_b;
    let a2 = a1 + "\n"@ + "target="@ + ta;
    let b2 = b1 + "\n"@ + "target="@ + tb;
    let a3 = a2 + "\n"@ + "triple="@ + ra;
    let b3 = b2 + "\n"@ + "triple="@ + rb;
    let a4 = a3 + "\n"@ + "features="@ + fa;
    let b4 = b3 + "\n"@ + "features="@ + fb;
    let a5 = a4 + "\n"@ + "tokio="@ + ba;
    let b5 = b4 + "\n"@ + "tokio="@ + bb;
    text::lemma_cancel_end(
        a5 + "\n"@ + "srcs="@ + sources_a,
        b5 + "\n"@ + "srcs="@ + sources_b,
        "\n"@,
    );
    lemma_last_line(a5, b5, "srcs="@, sources_a, sources_b);
    lemma_last_line(a4, b4, "tokio="@, ba, bb);
    lemma_last_line(a3, b3, "features="@, fa, fb);
    lemma_last_line(a2, b2, "triple="@, ra, rb);
    lemma_last_line(a1, b1, "target="@, ta, tb);
    text::lemma_cancel_start(head, key_a, key_b);
    if plain_list(features_a) && plain_list(features_b) {
        lemma_plain_lists(features_a, features_b);
    }
    if plain_list(binding_texts(bindings_a)) && plain_list(binding_texts(bindings_b)) {
        lemma_plain_lists(binding_texts(bindings_a), binding_texts(bindings_b));
    }
}

proof fn lemma_line(s: Seq<char>, tag: Seq<char>, value: Seq<char>, lines: Seq<Seq<char>>)
    requires
        lines.len() > 0,
        s == text::joined(lines, "\n"@) + "\n"@,
    ensures
        s + tag + value + "\n"@ == text::joined(lines.push(tag + value), "\n"@) + "\n"@,
{
    text::law_joined_reads_piece_by_piece(lines, tag + value, "\n"@);
    assert(s + tag + value + "\n"@ =~= s + (tag + value) + "\n"@);
}

/// The text of an optional name, `host` where there is none.
pub open spec fn or_host(name: Option<Seq<char>>) -> Seq<char> {
    if name is Some {
        name->0
    } else {
        "host"@
    }
}

/// What tracks a binding, nothing where nothing does.
pub open spec fn tracking_text(b: Binding) -> Seq<char> {
    if b.2 is Some {
        b.2->0@
    } else {
        Seq::empty()
    }
}

/// The bindings as they are written, all of them in their order.
pub open spec fn written_bindings(bindings: Seq<Binding>) -> Seq<Seq<char>> {
    Seq::new(
        bindings.len(),
        |i: int|
            bindings[i].0@ + ":"@ + bindings[i].1@ + ":"@ + tracking_text(bindings[i]),
    )
}

/// The stamp reads line by line: its version, then the key, the target, the
/// triple, all the features in their order, all the bindings in theirs, and the
/// fingerprint of the sources, each after its tag.
pub proof fn law_stamp_reads_line_by_line(
    key_input: Seq<char>,
    target: Option<Seq<char>>,
    triple: Option<Seq<char>>,
    features: Seq<Seq<char>>,
    bindings: Seq<Binding>,
    sources: Seq<char>,
)
    ensures
        build_stamp(key_input, target, triple, features, bindings, sources) == text::joined(
            seq![
                "perry-auto-optimized-v2"@,
                "key="@ + key_input,
                "target="@ + or_host(target),
                "triple="@ + or_host(triple),
                "features="@ + text::joined(features, ","@),
                "tokio="@ + text::joined(written_bindings(bindings), ","@),
                "srcs="@ + sources,
            ],
            "\n"@,
        ) + "\n"@,
{
    reveal_strlit("perry-auto-optimized-v2\n");
    reveal_strlit("perry-auto-optimized-v2");
    reveal_strlit("\n");
    let texts = written_bindings(bindings);
    assert(binding_texts(bindings) =~= texts);
    let fs = text::joined(features, ","@);
    let bs = text::joined(texts, ","@);
    let l1 = seq!["perry-auto-optimized-v2"@];
    let s1 = "perry-auto-optimized-v2\n"@;
    text::law_joined_reads_piece_by_piece(l1, "perry-auto-optimized-v2"@, "\n"@);
    assert(s1 =~= text::joined(l1, "\n"@) + "\n"@);
    let l2 = l1.push("key="@ + key_input);
    let s2 = s1 + "key="@ + key_input + "\n"@;
    lemma_line(s1, "key="@, key_input, l1);
    let l3 = l2.push("target="@ + or_host(target));
    let s3 = s2 + "target="@ + or_host(target) + "\n"@;
    lemma_line(s2, "target="@, or_host(target), l2);
    let l4 = l3.push("triple="@ + or_host(triple));
    let s4 = s3 + "triple="@ + or_host(triple) + "\n"@;
    lemma_line(s3, "triple="@, or_host(triple), l3);
    let l5 = l4.push("features="@ + fs);
    let s5 = s4 + "features="@ + fs + "\n"@;
    lemma_line(s4, "features="@, fs, l4);
    let l6 = l5.push("tokio="@ + bs);
    let s6 = s5 + "tokio="@ + bs + "\n"@;
    lemma_line(s5, "tokio="@, bs, l5);
    lemma_line(s6, "srcs="@, sources, l6);
    assert(l6.push("srcs="@ + sources) =~= seq![
        "perry-auto-optimized-v2"@,
        "key="@ + key_input,
        "target="@ + or_host(target),
        "triple="@ + or_host(triple),
        "features="@ + fs,
        "tokio="@ + bs,
        "srcs="@ + sources,
    ]);
}

/// Whether none of the parts of a binding holds `c`.
pub open spec fn binding_holds_no(b: Binding, c: char) -> bool {
    !b.0@.contains(c) && !b.1@.contains(c) && !tracking_text(b).contains(c)
}

proof fn lemma_add_without(a: Seq<char>, b: Seq<char>, c: char)
    requires
        !a.contains(c),
        !b.contains(c),
    ensures
        !(a + b).contains(c),
{
    if (a + b).contains(c) {
        let i = (a + b).index_of(c);
        if i < a.len() {
            assert(a[i] == c);
        } else {
            assert(b[i - a.len()] == c);
        }
    }
}

proof fn lemma_joined_without(pieces: Seq<Seq<char>>, sep: Seq<char>, c: char)
    requires
        forall|i: int| 0 <= i < pieces.len() ==> !(#[trigger] pieces[i]).contains(c),
        !sep.contains(c),
    ensures
        !text::joined(pieces, sep).contains(c),
    decreases pieces.len(),
{
    if pieces.len() > 0 {
        let rest = pieces.drop_last();
        assert forall|i: int| 0 <= i < rest.len() implies !(#[trigger] rest[i]).contains(c) by {
            assert(rest[i] == pieces[i]);
        }
        lemma_joined_without(rest, sep, c);
        assert(!pieces[pieces.len() - 1].contains(c));
        if pieces.len() > 1 {
            lemma_add_without(text::joined(rest, sep), sep, c);
            lemma_add_without(text::joined(rest, sep) + sep, pieces.last(), c);
        }
    }
}

proof fn lemma_binding_without(b: Binding, c: char)
    requires
        binding_holds_no(b, c),
        c != ':',
    ensures
        !binding_text(b).contains(c),
{
    reveal_strlit(":");
    assert(!":"@.contains(c));
    lemma_add_without(b.0@, ":"@, c);
    lemma_add_without(b.0@ + ":"@, b.1@, c);
    lemma_add_without(b.0@ + ":"@ + b.1@, ":"@, c);
    lemma_add_without(b.0@ + ":"@ + b.1@ + ":"@, tracking_text(b), c);
    assert(binding_text(b) == b.0@ + ":"@ + b.1@ + ":"@ + tracking_text(b));
}

proof fn lemma_binding_decodes(a: Binding, b: Binding)
    requires
        binding_holds_no(a, ':'),
        binding_holds_no(b, ':'),
        binding_text(a) == binding_text(b),
    ensures
        a.0@ == b.0@,
        a.1@ == b.1@,
        tracking_text(a) == tracking_text(b),
{
    reveal_strlit(":");
    assert(":"@ =~= seq![':']);
    let ra = a.1@ + seq![':'] + tracking_text(a);
    let rb = b.1@ + seq![':'] + tracking_text(b);
    assert(binding_text(a) =~= a.0@ + seq![':'] + ra);
    assert(binding_text(b) =~= b.0@ + seq![':'] + rb);
    text::lemma_split_at_separator(a.0@, b.0@, ra, rb, ':');
    text::lemma_split_at_separator(a.1@, b.1@, tracking_text(a), tracking_text(b), ':');
}

/// Equal stamps were made for the same bindings, every one of them: equally many,
/// and at each place the same crate, library and tracking. No part holds a line
/// feed, a comma or a colon.
pub proof fn law_stamp_identifies_the_bindings(
    key_a: Seq<char>,
    key_b: Seq<char>,
    target_a: Option<Seq<char>>,
    target_b: Option<Seq<char>>,
    triple_a: Option<Seq<char>>,
    triple_b: Option<Seq<char>>,
    features_a: Seq<Seq<char>>,
    features_b: Seq<Seq<char>>,
    bindings_a: Seq<Binding>,
    bindings_b: Seq<Binding>,
    sources_a: Seq<char>,
    sources_b: Seq<char>,
)
    requires
        !or_host(target_a).contains('\n'),
        !or_host(target_b).contains('\n'),
        !or_host(triple_a).contains('\n'),
        !or_host(triple_b).contains('\n'),
        forall|i: int| 0 <= i < features_a.len() ==> !(#[trigger] features_a[i]).contains('\n'),
        forall|i: int| 0 <= i < features_b.len() ==> !(#[trigger] features_b[i]).contains('\n'),
        !sources_a.contains('\n'),
        !sources_b.contains('\n'),
        forall|i: int|
            0 <= i < bindings_a.len() ==> {
                &&& binding_holds_no(#[trigger] bindings_a[i], '\n')
                &&& binding_holds_no(bindings_a[i], ',')
                &&& binding_holds_no(bindings_a[i], ':')
            },
        forall|i: int|
            0 <= i < bindings_b.len() ==> {
                &&& binding_holds_no(#[trigger] bindings_b[i], '\n')
                &&& binding_holds_no(bindings_b[i], ',')
                &&& binding_holds_no(bindings_b[i], ':')
            },
        build_stamp(key_a, target_a, triple_a, features_a, bindings_a, sources_a) == build_stamp(
            key_b,
            target_b,
            triple_b,
            features_b,
            bindings_b,
            sources_b,
        ),
    ensures
        bindings_a.len() == bindings_b.len(),
        forall|i: int|
            0 <= i < bindings_a.len() ==> (#[trigger] bindings_a[i]).0@ == bindings_b[i].0@
                && bindings_a[i].1@ == bindings_b[i].1@ && tracking_text(bindings_a[i])
                == tracking_text(bindings_b[i]),
        (forall|i: int|
            0 <= i < features_a.len() ==> (#[trigger] features_a[i]).len() > 0
                && !features_a[i].contains(',')) && (forall|i: int|
            0 <= i < features_b.len() ==> (#[trigger] features_b[i]).len() > 0
                && !features_b[i].contains(',')) ==> features_a == features_b,
{
    reveal_strlit(",");
    lemma_joined_without(features_a, ","@, '\n');
    lemma_joined_without(features_b, ","@, '\n');
    let ta = binding_texts(bindings_a);
    let tb = binding_texts(bindings_b);
    lemma_binding_texts(bindings_a);
    lemma_binding_texts(bindings_b);
    lemma_joined_without(ta, ","@, '\n');
    lemma_joined_without(tb, ","@, '\n');
    law_stamp_identifies_every_line(
        key_a,
        key_b,
        target_a,
        target_b,
        triple_a,
        triple_b,
        features_a,
        features_b,
        bindings_a,
        bindings_b,
        sources_a,
        sources_b,
    );
    assert(ta == tb);
    assert(ta.len() == bindings_a.len() && tb.len() == bindings_b.len());
    assert forall|i: int| 0 <= i < bindings_a.len() implies (#[trigger] bindings_a[i]).0@
        == bindings_b[i].0@ && bindings_a[i].1@ == bindings_b[i].1@ && tracking_text(
        bindings_a[i],
    ) == tracking_text(bindings_b[i]) by {
        assert(ta[i] == binding_text(bindings_a[i]));
        assert(tb[i] == binding_text(bindings_b[i]));
        assert(binding_holds_no(bindings_b[i], ':'));
        lemma_binding_decodes(bindings_a[i], bindings_b[i]);
    }
}

proof fn lemma_binding_texts(bindings: Seq<Binding>)
    requires
        forall|i: int|
            0 <= i < bindings.len() ==> {
                &&& binding_holds_no(#[trigger] bindings[i], '\n')
                &&& binding_holds_no(bindings[i], ',')
            },
    ensures
        plain_list(binding_texts(bindings)),
        forall|i: int|
            0 <= i < binding_texts(bindings).len() ==> !(#[trigger] binding_texts(
                bindings,
            )[i]).contains('\n'),
{
    let t = binding_texts(bindings);
    assert forall|i: int| 0 <= i < t.len() implies !(#[trigger] t[i]).contains('\n')
        && !t[i].contains(',') && t[i].len() > 0 by {
        reveal_strlit(":");
        assert(binding_holds_no(bindings[i], '\n'));
        lemma_binding_without(bindings[i], '\n');
        lemma_binding_without(bindings[i], ',');
        assert(t[i] == binding_text(bindings[i]));
        assert(binding_text(bindings[i]).len() >= ":"@.len());
    }
}

} // verus!
