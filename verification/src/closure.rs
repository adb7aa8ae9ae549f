//! The workspace crates whose sources are compiled into the archives.
use crate::bindings;
use crate::bindings::Binding;
use crate::name_set;
use crate::name_set::NameSet;
use crate::text;
use crate::text::{chars_of, clone_names, find_newline, str_eq, trim_range};
use vstd::prelude::*;

verus! {

/// Whether `c` can stand in the name of a crate. Only a wide name holds
/// characters beyond ASCII.
pub open spec fn is_name_char(c: char, wide: bool) -> bool {
    ||| '0' <= c <= '9'
    ||| 'A' <= c <= 'Z'
    ||| 'a' <= c <= 'z'
    ||| c == '-'
    ||| c == '_'
    ||| wide && c > '\u{7f}'
}

/// The pieces between the characters of `s` that can stand in no name: each is
/// a name that no name character precedes or follows, or empty.
pub open spec fn pieces(s: Seq<char>, wide: bool) -> Seq<Seq<char>>
    decreases s.len(),
{
    if s.len() == 0 {
        seq![Seq::empty()]
    } else {
        let before = pieces(s.drop_last(), wide);
        if is_name_char(s.last(), wide) {
            before.drop_last().push(before.last().push(s.last()))
        } else {
            before.push(Seq::empty())
        }
    }
}

/// What follows the last dot of `s`; all of `s` where it has none.
pub open spec fn last_piece(s: Seq<char>) -> Seq<char>
    decreases s.len(),
{
    if s.len() == 0 || s.last() == '.' {
        Seq::empty()
    } else {
        last_piece(s.drop_last()).push(s.last())
    }
}

/// The last part of a section header such as `[dependencies.perry-foo]`, as it
/// stands; empty for any other line.
pub open spec fn header_part(line: Seq<char>) -> Seq<char> {
    let l = text::trim(line);
    if l.len() >= 2 && l[0] == '[' && l.last() == ']' {
        last_piece(l.subrange(1, l.len() - 1))
    } else {
        Seq::empty()
    }
}

/// The last parts of the section headers of a manifest, line by line.
pub open spec fn header_parts(manifest: Seq<char>) -> Seq<Seq<char>> {
    text::lines(manifest).map_values(|line: Seq<char>| header_part(line))
}

/// What a manifest mentions: its names of ASCII characters, its wide names, and
/// the last parts of its section headers.
pub open spec fn mentions(manifest: Seq<char>) -> Seq<Seq<char>> {
    pieces(manifest, false) + pieces(manifest, true) + header_parts(manifest)
}

/// Whether `c` can stand in the name of a crate.
fn name_char(c: char, wide: bool) -> (r: bool)
    ensures
        r == is_name_char(c, wide),
{
    ('0' <= c && c <= '9') || ('A' <= c && c <= 'Z') || ('a' <= c && c <= 'z') || c == '-' || c
        == '_' || (wide && c > '\u{7f}')
}

proof fn lemma_pieces_not_empty(s: Seq<char>, wide: bool)
    ensures
        pieces(s, wide).len() > 0,
    decreases s.len(),
{
    if s.len() > 0 {
        lemma_pieces_not_empty(s.drop_last(), wide);
    }
}

/// Adds the pieces between the characters that can stand in no name to `out`.
fn push_pieces(out: &mut Vec<String>, manifest: &str, wide: bool)
    ensures
        text::views(final(out)@) == text::views(old(out)@) + pieces(manifest@, wide),
{
    let chars = chars_of(manifest);
    let ghost base = text::views(out@);
    let mut start: usize = 0;
    let mut i: usize = 0;
    proof {
        assert(chars@.take(0) =~= Seq::empty());
        assert(text::views(out@).push(chars@.subrange(0, 0)) =~= base + pieces(
            chars@.take(0),
            wide,
        ));
    }
    while i < chars.len()
        invariant
            start <= i <= chars@.len(),
            chars@ == manifest@,
            text::views(out@).push(chars@.subrange(start as int, i as int)) == base + pieces(
                chars@.take(i as int),
                wide,
            ),
        decreases chars@.len() - i,
    {
        let ghost shown = text::views(out@);
        let ghost piece = chars@.subrange(start as int, i as int);
        let ghost before = pieces(chars@.take(i as int), wide);
        let ghost c = chars@[i as int];
        proof {
            lemma_pieces_not_empty(chars@.take(i as int), wide);
            assert(chars@.take(i + 1).drop_last() =~= chars@.take(i as int));
            assert(chars@.take(i + 1).last() == c);
            assert((base + before).last() == before.last());
            assert(shown.push(piece).last() == piece);
            assert(shown =~= (base + before).drop_last());
            assert((base + before).drop_last() =~= base + before.drop_last());
        }
        if name_char(chars[i], wide) {
            proof {
                assert(chars@.subrange(start as int, i + 1) =~= piece.push(c));
                assert(shown.push(piece.push(c)) =~= base + pieces(chars@.take(i + 1), wide));
            }
        } else {
            out.push(manifest.substring_char(start, i).to_owned());
            start = i + 1;
            proof {
                assert(text::views(out@) =~= shown.push(piece));
                assert(chars@.subrange(start as int, i + 1) =~= Seq::empty());
                assert(text::views(out@).push(Seq::empty()) =~= base + pieces(
                    chars@.take(i + 1),
                    wide,
                ));
            }
        }
        i = i + 1;
    }
    let ghost shown = text::views(out@);
    out.push(manifest.substring_char(start, i).to_owned());
    proof {
        assert(chars@.take(i as int) =~= chars@);
        assert(text::views(out@) =~= shown.push(chars@.subrange(start as int, i as int)));
    }
}

/// The bounds of what `header_part` makes of `chars[start..end]`.
fn header_range(chars: &Vec<char>, start: usize, end: usize) -> (r: (usize, usize))
    requires
        start <= end <= chars@.len(),
    ensures
        start <= r.0 <= r.1 <= end,
        chars@.subrange(r.0 as int, r.1 as int) == header_part(
            chars@.subrange(start as int, end as int),
        ),
{
    let (a, b) = trim_range(chars, start, end);
    let ghost l = chars@.subrange(a as int, b as int);
    if b - a >= 2 && chars[a] == '[' && chars[b - 1] == ']' {
        let ghost header = chars@.subrange(a + 1, b - 1);
        assert(header =~= l.subrange(1, l.len() - 1));
        let mut c: usize = b - 1;
        proof {
            assert(chars@.subrange(c as int, b - 1) =~= Seq::empty());
            assert(last_piece(chars@.subrange(a + 1, c as int)) + chars@.subrange(c as int, b - 1)
                =~= last_piece(header));
        }
        while c > a + 1 && chars[c - 1] != '.'
            invariant
                a + 1 <= c <= b - 1,
                b <= chars@.len(),
                last_piece(chars@.subrange(a + 1, c as int)) + chars@.subrange(c as int, b - 1)
                    == last_piece(header),
            ensures
                a + 1 <= c <= b - 1,
                last_piece(chars@.subrange(a + 1, c as int)) + chars@.subrange(c as int, b - 1)
                    == last_piece(header),
                c == a + 1 || chars@[c - 1] == '.',
            decreases c,
        {
            proof {
                let s = chars@.subrange(a + 1, c as int);
                assert(s.drop_last() =~= chars@.subrange(a + 1, c - 1));
                assert(last_piece(s) + chars@.subrange(c as int, b - 1) =~= last_piece(
                    s.drop_last(),
                ) + chars@.subrange(c - 1, b - 1));
            }
            c = c - 1;
        }
        proof {
            assert(last_piece(chars@.subrange(a + 1, c as int)) =~= Seq::empty());
            assert(chars@.subrange(c as int, b - 1) =~= last_piece(header));
        }
        (c, b - 1)
    } else {
        proof {
            assert(chars@.subrange(a as int, a as int) =~= Seq::empty());
        }
        (a, a)
    }
}

/// The last parts of the section headers of a manifest, line by line.
fn manifest_headers(manifest: &str) -> (r: Vec<String>)
    ensures
        text::views(r@) == header_parts(manifest@),
{
    let chars = chars_of(manifest);
    let mut out: Vec<String> = Vec::new();
    let mut pos: usize = 0;
    let ghost mut done: Seq<Seq<char>> = Seq::empty();
    let ghost pick = |line: Seq<char>| header_part(line);
    proof {
        assert(manifest@.skip(0) =~= manifest@);
        assert(done + text::lines(manifest@) =~= text::lines(manifest@));
        assert(text::views(out@) =~= done.map_values(pick));
    }
    while pos < chars.len()
        invariant
            pos <= chars@.len(),
            chars@ == manifest@,
            pick == |line: Seq<char>| header_part(line),
            done + text::lines(manifest@.skip(pos as int)) == text::lines(manifest@),
            text::views(out@) == done.map_values(pick),
        decreases chars@.len() - pos,
    {
        let end: usize = find_newline(&chars, pos);
        let ghost rest = manifest@.skip(pos as int);
        let stop: usize = if end < chars.len() && end > pos && chars[end - 1] == '\r' {
            end - 1
        } else {
            end
        };
        let ghost line = chars@.subrange(pos as int, stop as int);
        let (c, d) = header_range(&chars, pos, stop);
        let ghost before = text::views(out@);
        out.push(manifest.substring_char(c, d).to_owned());
        proof {
            let k = text::first_newline(rest);
            assert(chars@.subrange(pos as int, end as int) =~= rest.take(k as int));
            if end < chars@.len() {
                assert(line =~= text::without_return(rest.take(k as int)));
                assert(rest.skip(k + 1int) =~= manifest@.skip(end + 1));
                assert(text::lines(rest) == seq![line] + text::lines(manifest@.skip(end + 1)));
            } else {
                assert(line =~= rest);
                assert(text::lines(rest) == seq![line]);
                assert(manifest@.skip(end as int) =~= Seq::empty());
                assert(text::lines(manifest@.skip(end as int)) =~= Seq::empty());
            }
            assert(text::views(out@) =~= before.push(header_part(line)));
            assert(done.push(line).map_values(pick) =~= done.map_values(pick).push(
                header_part(line),
            ));
            let next: int = if end < chars@.len() {
                end + 1
            } else {
                end as int
            };
            assert(done.push(line) + text::lines(manifest@.skip(next)) =~= done + text::lines(
                rest,
            ));
            done = done.push(line);
        }
        pos = if end < chars.len() {
            end + 1
        } else {
            end
        };
    }
    proof {
        assert(manifest@.skip(pos as int) =~= Seq::empty());
        assert(done =~= text::lines(manifest@));
    }
    out
}

/// What a manifest mentions.
pub fn manifest_mentions(manifest: &str) -> (r: Vec<String>)
    ensures
        text::views(r@) == mentions(manifest@),
{
    let mut out: Vec<String> = Vec::new();
    push_pieces(&mut out, manifest, false);
    proof {
        assert(text::views(out@) =~= pieces(manifest@, false));
    }
    push_pieces(&mut out, manifest, true);
    let ghost before = text::views(out@);
    let mut headers = manifest_headers(manifest);
    let ghost parts = text::views(headers@);
    out.append(&mut headers);
    proof {
        assert(text::views(out@) =~= before + parts);
    }
    out
}

/// The names of `names` that are new next to `known`: not empty, not known, and
/// each where it occurs first.
pub open spec fn unknown(names: Seq<Seq<char>>, known: Set<Seq<char>>) -> Seq<Seq<char>>
    decreases names.len(),
{
    if names.len() == 0 {
        Seq::empty()
    } else {
        let before = unknown(names.drop_last(), known);
        let name = names.last();
        if name.len() == 0 || known.contains(name) || before.contains(name) {
            before
        } else {
            before.push(name)
        }
    }
}

/// Whether one of `names` is `name`.
fn holds(names: &Vec<String>, name: &str) -> (r: bool)
    ensures
        r == text::views(names@).contains(name@),
{
    let mut i: usize = 0;
    while i < names.len()
        invariant
            i <= names@.len(),
            forall|j: int| 0 <= j < i ==> #[trigger] text::views(names@)[j] != name@,
        decreases names@.len() - i,
    {
        if str_eq(names[i].as_str(), name) {
            proof {
                assert(text::views(names@)[i as int] == name@);
            }
            return true;
        }
        i = i + 1;
    }
    false
}

/// The names of `names` that are new next to `known`.
fn sift_unknown(names: &Vec<String>, known: &NameSet) -> (r: Vec<String>)
    ensures
        text::views(r@) == unknown(text::views(names@), known@),
{
    let mut out: Vec<String> = Vec::new();
    let mut i: usize = 0;
    let ghost all = text::views(names@);
    proof {
        assert(all.take(0) =~= Seq::empty());
        assert(text::views(out@) =~= unknown(all.take(0), known@));
    }
    while i < names.len()
        invariant
            i <= names@.len(),
            all == text::views(names@),
            text::views(out@) == unknown(all.take(i as int), known@),
        decreases names@.len() - i,
    {
        let name = names[i].as_str();
        let ghost before = text::views(out@);
        proof {
            assert(all.take(i + 1).drop_last() =~= all.take(i as int));
            assert(all.take(i + 1).last() == name@);
        }
        if !name.is_empty() && !known.contains(name) && !holds(&out, name) {
            out.push(name.to_owned());
            proof {
                assert(text::views(out@) =~= before.push(name@));
            }
        }
        i = i + 1;
    }
    proof {
        assert(all.take(all.len() as int) =~= all);
    }
    out
}

/// A stage of the search: the crates found, and those of them whose manifest is
/// still to be read. The last of these is read next.
pub struct ClosureState {
    pub crates: Set<Seq<char>>,
    pub queue: Seq<Seq<char>>,
}

/// The crates that the build compiles directly.
pub open spec fn seeds(krates: Seq<Seq<char>>) -> Set<Seq<char>> {
    set![
        "perry-runtime"@,
        "perry-stdlib"@,
        "perry-runtime-static"@,
        "perry-stdlib-static"@,
    ].union(krates.to_set())
}

/// The stage at which the search starts.
pub open spec fn started(seeds: Set<Seq<char>>) -> ClosureState {
    ClosureState { crates: seeds, queue: name_set::in_order(seeds) }
}

/// The stage after the next crate was taken from the queue.
pub open spec fn taken(state: ClosureState) -> ClosureState {
    if state.queue.len() == 0 {
        state
    } else {
        ClosureState { crates: state.crates, queue: state.queue.drop_last() }
    }
}

/// The stage after workspace members were found.
pub open spec fn extended(state: ClosureState, members: Seq<Seq<char>>) -> ClosureState {
    let fresh = unknown(members, state.crates);
    ClosureState { crates: state.crates.union(fresh.to_set()), queue: state.queue + fresh }
}

/// The search for the transitive workspace path-dep closure: any manifest
/// token that names an existing `crates/<name>` directory is treated as a
/// workspace crate whose source is compiled into the archives.
/// Over-approximating (e.g. a feature named like a crate) only hashes extra
/// source, never misses an input.
pub struct CrateClosure {
    crates: NameSet,
    queue: Vec<String>,
}

impl View for CrateClosure {
    type V = ClosureState;

    closed spec fn view(&self) -> ClosureState {
        ClosureState { crates: self.crates@, queue: text::views(self.queue@) }
    }
}

impl CrateClosure {
    /// Starts with the crates that the build compiles directly: the runtime and
    /// stdlib, their static wrappers and the wrapper crates of the bindings.
    pub fn new(tokio_using_bindings: &[Binding]) -> (r: CrateClosure)
        ensures
            r@ == started(seeds(bindings::krates(tokio_using_bindings@))),
    {
        let mut crates = NameSet::new();
        crates.insert("perry-runtime");
        crates.insert("perry-stdlib");
        crates.insert("perry-runtime-static");
        crates.insert("perry-stdlib-static");
        let ghost direct = crates@;
        let ghost all = bindings::krates(tokio_using_bindings@);
        let mut i: usize = 0;
        proof {
            assert(crates@ =~= direct.union(all.take(0).to_set()));
        }
        while i < tokio_using_bindings.len()
            invariant
                i <= tokio_using_bindings@.len(),
                all == bindings::krates(tokio_using_bindings@),
                crates@ == direct.union(all.take(i as int).to_set()),
            decreases tokio_using_bindings@.len() - i,
        {
            crates.insert(tokio_using_bindings[i].0.as_str());
            proof {
                let head = all.take(i as int);
                assert(all.take(i + 1) =~= head.push(all[i as int]));
                head.lemma_push_to_set_commute(all[i as int]);
                assert(crates@ =~= direct.union(all.take(i + 1).to_set()));
            }
            i = i + 1;
        }
        proof {
            assert(all.take(all.len() as int) =~= all);
            assert(crates@ =~= seeds(all));
        }
        let queue = clone_names(crates.names());
        CrateClosure { crates, queue }
    }

    /// Takes the crate whose manifest is to be read next from the queue, if any
    /// is left.
    pub fn take_next(&mut self) -> (r: Option<String>)
        ensures
            final(self)@ == taken(old(self)@),
            match r {
                Some(name) => old(self)@.queue.len() > 0 && name@ == old(self)@.queue.last(),
                None => old(self)@.queue.len() == 0,
            },
    {
        let ghost before = text::views(self.queue@);
        let r = self.queue.pop();
        proof {
            if r is Some {
                assert(text::views(self.queue@) =~= before.drop_last());
            }
        }
        r
    }

    /// The names that a manifest mentions and that are not among the crates
    /// found: those of which it is to be asked whether they are members.
    pub fn unknown_mentions(&self, manifest: &str) -> (r: Vec<String>)
        ensures
            text::views(r@) == unknown(mentions(manifest@), self@.crates),
    {
        let all = manifest_mentions(manifest);
        sift_unknown(&all, &self.crates)
    }

    /// Adds workspace members to the crates found, and queues those that were
    /// not among them.
    pub fn add_members(&mut self, members: &Vec<String>)
        ensures
            final(self)@ == extended(old(self)@, text::views(members@)),
    {
        let mut fresh = sift_unknown(members, &self.crates);
        let ghost added = text::views(fresh@);
        let ghost crates_before = self.crates@;
        let ghost queue_before = text::views(self.queue@);
        let mut i: usize = 0;
        proof {
            assert(self.crates@ =~= crates_before.union(added.take(0).to_set()));
        }
        while i < fresh.len()
            invariant
                i <= fresh@.len(),
                added == text::views(fresh@),
                self.crates@ == crates_before.union(added.take(i as int).to_set()),
                text::views(self.queue@) == queue_before,
            decreases fresh@.len() - i,
        {
            self.crates.insert(fresh[i].as_str());
            proof {
                let head = added.take(i as int);
                assert(added.take(i + 1) =~= head.push(added[i as int]));
                head.lemma_push_to_set_commute(added[i as int]);
                assert(self.crates@ =~= crates_before.union(added.take(i + 1).to_set()));
            }
            i = i + 1;
        }
        self.queue.append(&mut fresh);
        proof {
            assert(added.take(added.len() as int) =~= added);
            assert(text::views(self.queue@) =~= queue_before + added);
        }
    }

    /// The crates found.
    pub fn crates(&self) -> (r: &NameSet)
        ensures
            r@ == self@.crates,
    {
        &self.crates
    }
}

/// A workspace as the search sees it: the text of each crate's manifest, if it
/// can be read, and which names have a manifest at all.
pub struct Workspace {
    pub manifest: spec_fn(Seq<char>) -> Option<Seq<char>>,
    pub is_member: spec_fn(Seq<char>) -> bool,
}

/// Whether the manifest of `from` mentions the workspace member `to`.
pub open spec fn depends(w: Workspace, from: Seq<char>, to: Seq<char>) -> bool {
    &&& (w.manifest)(from) is Some
    &&& mentions((w.manifest)(from)->0).contains(to)
    &&& to.len() > 0
    &&& (w.is_member)(to)
}

/// The crates within `n` steps of `from`.
pub open spec fn within(w: Workspace, from: Set<Seq<char>>, n: nat) -> Set<Seq<char>>
    decreases n,
{
    if n == 0 {
        from
    } else {
        let near = within(w, from, (n - 1) as nat);
        near.union(
            Set::new(|c: Seq<char>| exists|m: Seq<char>| near.contains(m) && depends(w, m, c)),
        )
    }
}

/// Whether a crate of `from` leads to `name` in any number of steps.
pub open spec fn reachable(w: Workspace, from: Set<Seq<char>>, name: Seq<char>) -> bool {
    exists|n: nat| within(w, from, n).contains(name)
}

/// The stage after the next crate was dealt with: its manifest is read, the
/// names that it mentions and that are members are added.
pub open spec fn stepped(w: Workspace, state: ClosureState) -> ClosureState {
    if state.queue.len() == 0 {
        state
    } else {
        match (w.manifest)(state.queue.last()) {
            Some(manifest) => extended(
                taken(state),
                unknown(mentions(manifest), taken(state).crates).filter(w.is_member),
            ),
            None => taken(state),
        }
    }
}

/// What holds at every stage of a search of `w` from `from`: the crates found
/// are reachable and take in `from`, and each of them is queued or has all that
/// it depends on among them.
pub open spec fn sound(w: Workspace, from: Set<Seq<char>>, state: ClosureState) -> bool {
    &&& forall|c: Seq<char>| #[trigger] from.contains(c) ==> state.crates.contains(c)
    &&& forall|c: Seq<char>| #[trigger] state.crates.contains(c) ==> reachable(w, from, c)
    &&& forall|c: Seq<char>| #[trigger] state.queue.contains(c) ==> state.crates.contains(c)
    &&& forall|m: Seq<char>, c: Seq<char>|
        state.crates.contains(m) && !state.queue.contains(m) && #[trigger] depends(w, m, c)
            ==> state.crates.contains(c)
}

proof fn lemma_unknown(names: Seq<Seq<char>>, known: Set<Seq<char>>, x: Seq<char>)
    ensures
        unknown(names, known).contains(x) <==> names.contains(x) && x.len() > 0 && !known.contains(
            x,
        ),
    decreases names.len(),
{
    if names.len() > 0 {
        let rest = names.drop_last();
        let before = unknown(rest, known);
        lemma_unknown(rest, known, x);
        assert(names.contains(x) <==> rest.contains(x) || names.last() == x) by {
            if names.contains(x) && names.last() != x {
                assert(rest[names.index_of(x)] == x);
            }
            if rest.contains(x) {
                assert(names[rest.index_of(x)] == x);
            }
            if names.last() == x {
                assert(names[names.len() - 1] == x);
            }
        }
        let after = before.push(names.last());
        if before.contains(x) {
            assert(after[before.index_of(x)] == x);
        }
        if names.last() == x {
            assert(after[before.len() as int] == x);
        }
        if after.contains(x) && names.last() != x {
            assert(before[after.index_of(x)] == x);
        }
    }
}

/// The search starts at a sound stage.
pub proof fn law_search_starts_sound(w: Workspace, krates: Seq<Seq<char>>)
    ensures
        sound(w, seeds(krates), started(seeds(krates))),
{
    let from = seeds(krates);
    let listing = name_set::in_order(from);
    name_set::lemma_listing_exists(from);
    assert forall|c: Seq<char>| #[trigger] from.contains(c) implies reachable(w, from, c) by {
        assert(within(w, from, 0).contains(c));
    }
    assert forall|c: Seq<char>| from.contains(c) implies #[trigger] started(
        from,
    ).queue.contains(c) by {
        assert(listing.contains(c));
    }
}

/// Dealing with the next crate leads from a sound stage to a sound stage.
pub proof fn law_search_stays_sound(w: Workspace, from: Set<Seq<char>>, state: ClosureState)
    requires
        sound(w, from, state),
    ensures
        sound(w, from, stepped(w, state)),
{
    if state.queue.len() > 0 {
        let name = state.queue.last();
        let next = stepped(w, state);
        let left = state.queue.drop_last();
        assert(state.queue.contains(name));
        assert forall|c: Seq<char>| #[trigger] left.contains(c) implies state.queue.contains(c) by {
            assert(state.queue[left.index_of(c)] == c);
        }
        assert forall|c: Seq<char>| state.queue.contains(c) && c != name implies #[trigger]
            left.contains(c) by {
            assert(left[state.queue.index_of(c)] == c);
        }
        if (w.manifest)(name) is Some {
            let found = mentions((w.manifest)(name)->0);
            let asked = unknown(found, state.crates);
            let members = asked.filter(w.is_member);
            let fresh = unknown(members, state.crates);
            assert forall|c: Seq<char>| #[trigger]
                fresh.contains(c) <==> depends(w, name, c) && !state.crates.contains(c) by {
                lemma_unknown(members, state.crates, c);
                text::lemma_filter_membership(asked, w.is_member, c);
                lemma_unknown(found, state.crates, c);
            }
            assert forall|c: Seq<char>| #[trigger]
                next.queue.contains(c) <==> left.contains(c) || fresh.contains(c) by {
                if left.contains(c) {
                    assert(next.queue[left.index_of(c)] == c);
                }
                if fresh.contains(c) {
                    assert(next.queue[left.len() + fresh.index_of(c)] == c);
                }
                if next.queue.contains(c) {
                    let i = next.queue.index_of(c);
                    if i < left.len() {
                        assert(left[i] == c);
                    } else {
                        assert(fresh[i - left.len()] == c);
                    }
                }
            }
            assert forall|c: Seq<char>| #[trigger]
                next.crates.contains(c) <==> state.crates.contains(c) || fresh.contains(c) by {}
            let k = choose|n: nat| within(w, from, n).contains(name);
            assert(reachable(w, from, name));
            assert forall|c: Seq<char>| #[trigger] next.crates.contains(c) implies reachable(
                w,
                from,
                c,
            ) by {
                if fresh.contains(c) {
                    assert(within(w, from, k).contains(name) && depends(w, name, c));
                    assert(within(w, from, (k + 1) as nat).contains(c));
                }
            }
            assert forall|m: Seq<char>, c: Seq<char>|
                next.crates.contains(m) && !next.queue.contains(m) && #[trigger] depends(
                    w,
                    m,
                    c,
                ) implies next.crates.contains(c) by {
                assert(!fresh.contains(m));
                assert(!left.contains(m));
                if m == name {
                    assert(fresh.contains(c) || state.crates.contains(c));
                }
            }
        } else {
            assert forall|m: Seq<char>, c: Seq<char>|
                next.crates.contains(m) && !next.queue.contains(m) && #[trigger] depends(
                    w,
                    m,
                    c,
                ) implies next.crates.contains(c) by {
                assert(!left.contains(m));
                assert(m != name);
            }
        }
    }
}

/// When no crate is left to be dealt with, the crates found are those that the
/// search can reach, no fewer and no more.
pub proof fn law_search_misses_no_crate(
    w: Workspace,
    from: Set<Seq<char>>,
    state: ClosureState,
    name: Seq<char>,
)
    requires
        sound(w, from, state),
        state.queue.len() == 0,
    ensures
        state.crates.contains(name) <==> reachable(w, from, name),
{
    if reachable(w, from, name) {
        let n = choose|n: nat| within(w, from, n).contains(name);
        lemma_closed_under_steps(w, from, state, n, name);
    }
}

proof fn lemma_closed_under_steps(
    w: Workspace,
    from: Set<Seq<char>>,
    state: ClosureState,
    n: nat,
    name: Seq<char>,
)
    requires
        sound(w, from, state),
        state.queue.len() == 0,
        within(w, from, n).contains(name),
    ensures
        state.crates.contains(name),
    decreases n,
{
    if n > 0 {
        let near = within(w, from, (n - 1) as nat);
        if near.contains(name) {
            lemma_closed_under_steps(w, from, state, (n - 1) as nat, name);
        } else {
            let m = choose|m: Seq<char>| near.contains(m) && depends(w, m, name);
            lemma_closed_under_steps(w, from, state, (n - 1) as nat, m);
            assert(!state.queue.contains(m));
            assert(depends(w, m, name));
        }
    }
}

/// The stage after `n` crates were dealt with.
pub open spec fn explored(w: Workspace, state: ClosureState, n: nat) -> ClosureState
    decreases n,
{
    if n == 0 {
        state
    } else {
        explored(w, stepped(w, state), (n - 1) as nat)
    }
}

proof fn lemma_explored_sound(w: Workspace, from: Set<Seq<char>>, state: ClosureState, n: nat)
    requires
        sound(w, from, state),
    ensures
        sound(w, from, explored(w, state, n)),
    decreases n,
{
    if n > 0 {
        law_search_stays_sound(w, from, state);
        lemma_explored_sound(w, from, stepped(w, state), (n - 1) as nat);
    }
}

/// A search from the crates that the build compiles directly, once it is done,
/// has found the crates that can be reached from them, no fewer and no more.
pub proof fn law_finished_search_found_the_closure(
    w: Workspace,
    krates: Seq<Seq<char>>,
    n: nat,
    name: Seq<char>,
)
    requires
        explored(w, started(seeds(krates)), n).queue.len() == 0,
    ensures
        explored(w, started(seeds(krates)), n).crates.contains(name) <==> reachable(
            w,
            seeds(krates),
            name,
        ),
{
    law_search_starts_sound(w, krates);
    lemma_explored_sound(w, seeds(krates), started(seeds(krates)), n);
    law_search_misses_no_crate(
        w,
        seeds(krates),
        explored(w, started(seeds(krates)), n),
        name,
    );
}

proof fn lemma_unknown_distinct(names: Seq<Seq<char>>, known: Set<Seq<char>>)
    ensures
        unknown(names, known).no_duplicates(),
    decreases names.len(),
{
    if names.len() > 0 {
        lemma_unknown_distinct(names.drop_last(), known);
    }
}

/// How many steps a search within `all` can still take.
spec fn steps_left(all: Set<Seq<char>>, state: ClosureState) -> int {
    all.len() - state.crates.len() + state.queue.len()
}

proof fn lemma_step_counts(w: Workspace, all: Set<Seq<char>>, state: ClosureState)
    requires
        all.finite(),
        state.crates.subset_of(all),
        forall|m: Seq<char>, c: Seq<char>| #[trigger] depends(w, m, c) ==> all.contains(c),
        state.queue.len() > 0,
    ensures
        stepped(w, state).crates.subset_of(all),
        steps_left(all, stepped(w, state)) == steps_left(all, state) - 1,
{
    let name = state.queue.last();
    if (w.manifest)(name) is Some {
        let found = mentions((w.manifest)(name)->0);
        let asked = unknown(found, state.crates);
        let members = asked.filter(w.is_member);
        let fresh = unknown(members, state.crates);
        assert forall|c: Seq<char>| #[trigger] fresh.contains(c) implies all.contains(c)
            && !state.crates.contains(c) by {
            lemma_unknown(members, state.crates, c);
            text::lemma_filter_membership(asked, w.is_member, c);
            lemma_unknown(found, state.crates, c);
            assert(depends(w, name, c));
        }
        lemma_unknown_distinct(members, state.crates);
        fresh.unique_seq_to_set();
        vstd::set_lib::lemma_len_subset(state.crates, all);
        vstd::set_lib::lemma_set_disjoint_lens(state.crates, fresh.to_set());
    }
}

proof fn lemma_search_ends(w: Workspace, all: Set<Seq<char>>, state: ClosureState, n: nat)
    requires
        all.finite(),
        state.crates.subset_of(all),
        forall|m: Seq<char>, c: Seq<char>| #[trigger] depends(w, m, c) ==> all.contains(c),
        state.queue.len() == 0 || steps_left(all, state) <= n,
    ensures
        explored(w, state, n).queue.len() == 0,
    decreases n,
{
    vstd::set_lib::lemma_len_subset(state.crates, all);
    if n > 0 {
        if state.queue.len() > 0 {
            lemma_step_counts(w, all, state);
        }
        lemma_search_ends(w, all, stepped(w, state), (n - 1) as nat);
    }
}

/// A search of a workspace with finitely many crates ends, after at most as many
/// steps as there are crates.
pub proof fn law_search_ends(w: Workspace, krates: Seq<Seq<char>>, all: Set<Seq<char>>)
    requires
        all.finite(),
        seeds(krates).subset_of(all),
        forall|m: Seq<char>, c: Seq<char>| #[trigger] depends(w, m, c) ==> all.contains(c),
    ensures
        explored(w, started(seeds(krates)), all.len()).queue.len() == 0,
{
    let from = seeds(krates);
    let listing = name_set::in_order(from);
    name_set::lemma_listing_exists(from);
    assert(listing.no_duplicates());
    listing.unique_seq_to_set();
    assert(listing.to_set() =~= from);
    lemma_search_ends(w, all, started(from), all.len());
}

/// Whether `c` is a letter or digit of ASCII, `-` or `_`, or, for a wide name, a
/// character beyond ASCII.
pub open spec fn token_char(c: char, wide: bool) -> bool {
    ||| '0' <= c <= '9'
    ||| 'A' <= c <= 'Z'
    ||| 'a' <= c <= 'z'
    ||| c == '-'
    ||| c == '_'
    ||| wide && c > '\u{7f}'
}

/// What stands before and behind a name in a manifest, where the name is not part
/// of a longer one.
pub open spec fn delimits(before: Seq<char>, after: Seq<char>, wide: bool) -> bool {
    &&& before.len() > 0 ==> !token_char(before.last(), wide)
    &&& after.len() > 0 ==> !token_char(after[0], wide)
}

/// Whether `name` consists of name characters.
pub open spec fn is_name(name: Seq<char>, wide: bool) -> bool {
    name.len() > 0 && forall|i: int| 0 <= i < name.len() ==> token_char(#[trigger] name[i], wide)
}

/// Whether `name` stands in `manifest`, and not as part of a longer name.
pub open spec fn stands_in(manifest: Seq<char>, name: Seq<char>) -> bool {
    exists|before: Seq<char>, after: Seq<char>, wide: bool|
        manifest == #[trigger] (before + name + after) && #[trigger] delimits(before, after, wide)
            && is_name(name, wide)
}

proof fn lemma_name_piece(before: Seq<char>, name: Seq<char>, wide: bool)
    requires
        before.len() > 0 ==> !is_name_char(before.last(), wide),
        forall|i: int| 0 <= i < name.len() ==> is_name_char(#[trigger] name[i], wide),
    ensures
        pieces(before + name, wide).len() > 0,
        pieces(before + name, wide).last() == name,
    decreases name.len(),
{
    let s = before + name;
    lemma_pieces_not_empty(s, wide);
    if name.len() == 0 {
        assert(s =~= before);
        assert(pieces(s, wide).last() =~= name);
    } else {
        let head = name.drop_last();
        assert forall|i: int| 0 <= i < head.len() implies is_name_char(
            #[trigger] head[i],
            wide,
        ) by {
            assert(head[i] == name[i]);
        }
        lemma_name_piece(before, head, wide);
        assert(s.last() == name[name.len() - 1]);
        assert(s.drop_last() =~= before + head);
        assert(head.push(name.last()) =~= name);
    }
}

proof fn lemma_piece_stays(s: Seq<char>, after: Seq<char>, wide: bool)
    requires
        after.len() > 0,
        !is_name_char(after[0], wide),
    ensures
        pieces(s + after, wide).len() > pieces(s, wide).len(),
        forall|i: int|
            0 <= i < pieces(s, wide).len() ==> #[trigger] pieces(s + after, wide)[i] == pieces(
                s,
                wide,
            )[i],
    decreases after.len(),
{
    let head = after.drop_last();
    assert((s + after).last() == after.last());
    assert((s + after).drop_last() =~= s + head);
    if head.len() == 0 {
        assert(s + head =~= s);
    } else {
        assert(head[0] == after[0]);
        lemma_piece_stays(s, head, wide);
    }
}

/// Any token of a manifest is mentioned: a name that stands in it, and not as
/// part of a longer name, wherever it stands.
pub proof fn law_any_token_is_mentioned(manifest: Seq<char>, name: Seq<char>)
    requires
        stands_in(manifest, name),
    ensures
        mentions(manifest).contains(name),
{
    let (before, after, wide) = choose|before: Seq<char>, after: Seq<char>, wide: bool|
        manifest == #[trigger] (before + name + after) && #[trigger] delimits(before, after, wide)
            && is_name(name, wide);
    let start = pieces(before + name, wide);
    let all = pieces(manifest, wide);
    assert forall|i: int| 0 <= i < name.len() implies is_name_char(#[trigger] name[i], wide) by {
        assert(token_char(name[i], wide));
    }
    lemma_name_piece(before, name, wide);
    let k = start.len() - 1;
    if after.len() > 0 {
        lemma_piece_stays(before + name, after, wide);
        assert(all[k] == start[k]);
    } else {
        assert(before + name + after =~= before + name);
    }
    assert(all[k] == name);
    if wide {
        assert(mentions(manifest)[pieces(manifest, false).len() + k] == all[k]);
    } else {
        assert(mentions(manifest)[k] == all[k]);
    }
}

/// A dependency line, such as `perry-foo = { path = ".." }` or
/// `perry-foo.workspace = true`, mentions its crate: the name that starts it,
/// whatever lines precede and follow it, and however it is indented and goes on.
pub proof fn law_dependency_line_mentions_its_crate(
    lines_before: Seq<char>,
    indent: Seq<char>,
    name: Seq<char>,
    rest: Seq<char>,
)
    requires
        lines_before.len() > 0 ==> lines_before.last() == '\n',
        forall|i: int| 0 <= i < indent.len() ==> !token_char(#[trigger] indent[i], false),
        is_name(name, false),
        rest.len() > 0 ==> !token_char(rest[0], false),
    ensures
        mentions(lines_before + indent + name + rest).contains(name),
{
    let before = lines_before + indent;
    if indent.len() > 0 {
        assert(before.last() == indent[indent.len() - 1]);
    } else {
        assert(before =~= lines_before);
    }
    assert(delimits(before, rest, false));
    law_any_token_is_mentioned(before + name + rest, name);
}

/// A section header, such as `[dependencies.perry-foo]`, mentions the crate that
/// it ends with, whatever precedes the header and follows it, a comment on its
/// line among it.
pub proof fn law_dependency_section_mentions_its_crate(
    before: Seq<char>,
    section: Seq<char>,
    name: Seq<char>,
    after: Seq<char>,
)
    requires
        is_name(name, false),
    ensures
        mentions(before + seq!['['] + section + seq!['.'] + name + (seq![']'] + after)).contains(
            name,
        ),
{
    let start = before + seq!['['] + section + seq!['.'];
    let end = seq![']'] + after;
    assert(start.last() == '.');
    assert(end[0] == ']');
    assert(delimits(start, end, false));
    law_any_token_is_mentioned(start + name + end, name);
}

proof fn lemma_last_piece(prefix: Seq<char>, name: Seq<char>)
    requires
        !name.contains('.'),
        prefix.len() > 0 ==> prefix.last() == '.',
    ensures
        last_piece(prefix + name) == name,
    decreases name.len(),
{
    let s = prefix + name;
    if name.len() == 0 {
        assert(s =~= prefix);
        assert(last_piece(s) =~= name);
    } else {
        let head = name.drop_last();
        assert(name[name.len() - 1] == name.last());
        assert(name.contains(name.last()));
        assert(!head.contains('.')) by {
            if head.contains('.') {
                assert(name[head.index_of('.')] == '.');
            }
        }
        lemma_last_piece(prefix, head);
        assert(s.last() == name.last());
        assert(s.drop_last() =~= prefix + head);
        assert(head.push(name.last()) =~= name);
    }
}

/// A section header that stands alone on its line mentions its last part as it
/// stands, whatever characters that holds: what follows its last dot, or all of
/// it where it has none.
pub proof fn law_header_mentions_its_last_part(
    manifest: Seq<char>,
    indent: Seq<char>,
    prefix: Seq<char>,
    name: Seq<char>,
    trailing: Seq<char>,
)
    requires
        forall|i: int| 0 <= i < indent.len() ==> text::is_white_space(#[trigger] indent[i]),
        forall|i: int| 0 <= i < trailing.len() ==> text::is_white_space(#[trigger] trailing[i]),
        prefix.len() > 0 ==> prefix.last() == '.',
        !name.contains('.'),
        text::lines(manifest).contains(
            indent + (seq!['['] + (prefix + name) + seq![']'] + trailing),
        ),
    ensures
        mentions(manifest).contains(name),
{
    let header = seq!['['] + (prefix + name) + seq![']'];
    let line = indent + (header + trailing);
    assert(header[0] == '[' && header.last() == ']');
    assert((header + trailing)[0] == '[');
    text::lemma_trim_start(indent, header + trailing);
    text::lemma_trim_end(header, trailing);
    assert(text::trim(line) == header);
    assert(header.subrange(1, header.len() - 1) =~= prefix + name);
    lemma_last_piece(prefix, name);
    let i = text::lines(manifest).index_of(line);
    let parts = header_parts(manifest);
    assert(parts[i] == header_part(line));
    let before = pieces(manifest, false) + pieces(manifest, true);
    assert(mentions(manifest)[before.len() + i] == parts[i]);
}

/// The build compiles the runtime, the stdlib, their static wrappers and the
/// crates of all the bindings directly, and no others.
pub proof fn law_crates_that_the_build_compiles(krates: Seq<Seq<char>>, name: Seq<char>)
    ensures
        seeds(krates).contains(name) <==> {
            ||| name == "perry-runtime"@
            ||| name == "perry-stdlib"@
            ||| name == "perry-runtime-static"@
            ||| name == "perry-stdlib-static"@
            ||| exists|i: int| 0 <= i < krates.len() && #[trigger] krates[i] == name
        },
{
    if exists|i: int| 0 <= i < krates.len() && #[trigger] krates[i] == name {
        assert(krates.contains(name));
    }
    if krates.contains(name) {
        assert(krates[krates.index_of(name)] == name);
    }
}

/// The names that are asked about are those that are mentioned, not empty and not
/// known yet, each once.
pub proof fn law_unknown_names(names: Seq<Seq<char>>, known: Set<Seq<char>>, name: Seq<char>)
    ensures
        unknown(names, known).contains(name) <==> names.contains(name) && name.len() > 0
            && !known.contains(name),
        unknown(names, known).no_duplicates(),
{
    lemma_unknown(names, known, name);
    lemma_unknown_distinct(names, known);
}

proof fn lemma_piece_stands(s: Seq<char>, wide: bool, i: int) -> (r: (Seq<char>, Seq<char>))
    requires
        0 <= i < pieces(s, wide).len(),
    ensures
        s == r.0 + pieces(s, wide)[i] + r.1,
        delimits(r.0, r.1, wide),
        forall|k: int|
            0 <= k < pieces(s, wide)[i].len() ==> token_char(
                #[trigger] pieces(s, wide)[i][k],
                wide,
            ),
        i < pieces(s, wide).len() - 1 <==> r.1.len() > 0,
    decreases s.len(),
{
    if s.len() == 0 {
        assert(s =~= Seq::<char>::empty() + pieces(s, wide)[i] + Seq::<char>::empty());
        (Seq::empty(), Seq::empty())
    } else {
        let head = s.drop_last();
        let before = pieces(head, wide);
        let all = pieces(s, wide);
        lemma_pieces_not_empty(head, wide);
        let c = s.last();
        assert(s =~= head.push(c));
        if is_name_char(c, wide) {
            if i < before.len() - 1 {
                let (l, r) = lemma_piece_stands(head, wide, i);
                assert(all[i] == before[i]);
                assert(s =~= l + all[i] + r.push(c));
                assert(r.push(c)[0] == r[0]);
                (l, r.push(c))
            } else {
                let (l, r) = lemma_piece_stands(head, wide, before.len() - 1);
                assert(all[i] == before.last().push(c));
                assert(r =~= Seq::empty());
                assert(s =~= l + all[i] + r);
                assert forall|k: int| 0 <= k < all[i].len() implies token_char(
                    #[trigger] all[i][k],
                    wide,
                ) by {
                    if k < before.last().len() {
                        assert(all[i][k] == before[before.len() - 1][k]);
                    }
                }
                (l, r)
            }
        } else if i < before.len() {
            let (l, r) = lemma_piece_stands(head, wide, i);
            assert(all[i] == before[i]);
            assert(s =~= l + all[i] + r.push(c));
            if r.len() > 0 {
                assert(r.push(c)[0] == r[0]);
            } else {
                assert(r.push(c)[0] == c);
            }
            (l, r.push(c))
        } else {
            assert(all[i] =~= Seq::empty());
            assert(s =~= s + all[i] + Seq::<char>::empty());
            (s, Seq::empty())
        }
    }
}

/// Nothing else is mentioned: what is, is empty, stands in the manifest as a
/// token, or is the last part of one of its section headers.
pub proof fn law_only_tokens_and_headers_are_mentioned(manifest: Seq<char>, name: Seq<char>)
    requires
        mentions(manifest).contains(name),
    ensures
        ({
            ||| name.len() == 0
            ||| stands_in(manifest, name)
            ||| exists|i: int|
                0 <= i < text::lines(manifest).len() && {
                    let line = text::trim(#[trigger] text::lines(manifest)[i]);
                    exists|prefix: Seq<char>|
                        (prefix.len() > 0 ==> prefix.last() == '.') && !name.contains('.') && line
                            == #[trigger] (seq!['['] + (prefix + name) + seq![']'])
                }
        }),
{
    let narrow = pieces(manifest, false);
    let wide = pieces(manifest, true);
    let k = mentions(manifest).index_of(name);
    if name.len() > 0 {
        if k < narrow.len() {
            assert(narrow[k] == name);
            let (l, r) = lemma_piece_stands(manifest, false, k);
            assert(manifest == l + name + r && delimits(l, r, false) && is_name(name, false));
        } else if k < narrow.len() + wide.len() {
            let j = k - narrow.len();
            assert((narrow + wide)[k] == name);
            assert(wide[j] == name);
            let (l, r) = lemma_piece_stands(manifest, true, j);
            assert(manifest == l + name + r && delimits(l, r, true) && is_name(name, true));
        } else {
            let j = k - narrow.len() - wide.len();
            assert(header_parts(manifest)[j] == name);
            let raw = text::lines(manifest)[j];
            assert(header_part(raw) == name);
            let line = text::trim(raw);
            let inner = line.subrange(1, line.len() - 1);
            let prefix = lemma_last_piece_shape(inner);
            assert(line =~= seq!['['] + (prefix + name) + seq![']']);
        }
    }
}

proof fn lemma_last_piece_shape(s: Seq<char>) -> (prefix: Seq<char>)
    ensures
        s == prefix + last_piece(s),
        prefix.len() > 0 ==> prefix.last() == '.',
        !last_piece(s).contains('.'),
    decreases s.len(),
{
    if s.len() == 0 || s.last() == '.' {
        assert(s =~= s + last_piece(s));
        s
    } else {
        let prefix = lemma_last_piece_shape(s.drop_last());
        let head = last_piece(s.drop_last());
        assert(s =~= s.drop_last().push(s.last()));
        assert(prefix + head.push(s.last()) =~= (prefix + head).push(s.last()));
        assert(last_piece(s) == head.push(s.last()));
        if last_piece(s).contains('.') {
            let i = last_piece(s).index_of('.');
            if i < head.len() {
                assert(head[i] == '.');
            }
        }
        prefix
    }
}

} // verus!
