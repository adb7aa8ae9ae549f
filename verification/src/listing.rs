//! What a directory holds, and what of it counts as a source.
use crate::text;
use crate::text::str_eq;
use vstd::prelude::*;

verus! {

/// One step through the listing of a directory: a name, a name that is no
/// Unicode text, or a step that failed.
pub enum DirItem {
    Name(String),
    NotUnicode,
    Failed,
}

/// Whether a directory entry holds no sources.
pub open spec fn excluded(name: Seq<char>) -> bool {
    name == "target"@ || name == ".git"@
}

/// Whether a directory entry holds no sources.
pub fn is_excluded(name: &str) -> (r: bool)
    ensures
        r == excluded(name@),
{
    str_eq(name, "target") || str_eq(name, ".git")
}

/// The names in a listing that may hold sources, in the order of the listing.
pub open spec fn visible_names(items: Seq<DirItem>) -> Seq<Seq<char>>
    decreases items.len(),
{
    if items.len() == 0 {
        Seq::empty()
    } else {
        let before = visible_names(items.drop_last());
        match items.last() {
            DirItem::Name(name) => if excluded(name@) {
                before
            } else {
                before.push(name@)
            },
            _ => before,
        }
    }
}

/// The names in a listing that may hold sources, in the order of the listing.
pub fn visible(items: &Vec<DirItem>) -> (r: Vec<String>)
    ensures
        text::views(r@) == visible_names(items@),
{
    let mut out: Vec<String> = Vec::new();
    let mut i: usize = 0;
    proof {
        assert(items@.take(0) =~= Seq::empty());
        assert(text::views(out@) =~= Seq::empty());
    }
    while i < items.len()
        invariant
            i <= items@.len(),
            text::views(out@) == visible_names(items@.take(i as int)),
        decreases items@.len() - i,
    {
        let ghost before = text::views(out@);
        proof {
            assert(items@.take(i + 1).drop_last() =~= items@.take(i as int));
        }
        if let DirItem::Name(name) = &items[i] {
            if !is_excluded(name.as_str()) {
                out.push(name.clone());
                proof {
                    assert(text::views(out@) =~= before.push(name@));
                }
            }
        }
        i = i + 1;
    }
    proof {
        assert(items@.take(items@.len() as int) =~= items@);
    }
    out
}

proof fn lemma_push_seen(items: Seq<DirItem>, item: DirItem)
    ensures
        visible_names(items.push(item)) == visible_names(items) + visible_names(seq![item]),
{
    assert(items.push(item).drop_last() =~= items);
    assert(seq![item].drop_last() =~= Seq::empty());
    assert(visible_names(seq![item].drop_last()) =~= Seq::empty());
    assert(visible_names(items.push(item)) =~= visible_names(items) + visible_names(seq![item]));
}

/// A listing is seen item by item, in its order.
pub proof fn law_listing_is_seen_item_by_item(a: Seq<DirItem>, b: Seq<DirItem>)
    ensures
        visible_names(a + b) == visible_names(a) + visible_names(b),
    decreases b.len(),
{
    if b.len() == 0 {
        assert(a + b =~= a);
        assert(visible_names(a) + visible_names(b) =~= visible_names(a));
    } else {
        let rest = b.drop_last();
        law_listing_is_seen_item_by_item(a, rest);
        assert(a + b =~= (a + rest).push(b.last()));
        assert(b =~= rest.push(b.last()));
        lemma_push_seen(a + rest, b.last());
        lemma_push_seen(rest, b.last());
        assert(visible_names(a + b) =~= visible_names(a) + visible_names(b));
    }
}

/// Of one item of a listing, its name is seen, where it has one and that is
/// neither `target` nor `.git`.
pub proof fn law_only_target_and_git_are_passed_over(item: DirItem)
    ensures
        match item {
            DirItem::Name(name) => visible_names(seq![item]) == if name@ == "target"@ || name@
                == ".git"@ {
                Seq::<Seq<char>>::empty()
            } else {
                seq![name@]
            },
            DirItem::NotUnicode => visible_names(seq![item]) == Seq::<Seq<char>>::empty(),
            DirItem::Failed => visible_names(seq![item]) == Seq::<Seq<char>>::empty(),
        },
{
    assert(seq![item].drop_last() =~= Seq::empty());
    assert(visible_names(seq![item].drop_last()) =~= Seq::empty());
}

/// The names that are seen in a listing are all its names but `target` and
/// `.git`.
pub proof fn law_every_other_name_is_seen(items: Seq<DirItem>, name: Seq<char>)
    ensures
        visible_names(items).contains(name) <==> {
            &&& name != "target"@
            &&& name != ".git"@
            &&& exists|i: int|
                0 <= i < items.len() && (#[trigger] items[i]) is Name && items[i]->Name_0@ == name
        },
    decreases items.len(),
{
    if items.len() > 0 {
        let rest = items.drop_last();
        let item = items.last();
        law_every_other_name_is_seen(rest, name);
        law_only_target_and_git_are_passed_over(item);
        lemma_push_seen(rest, item);
        assert(items =~= rest.push(item));
        let a = visible_names(rest);
        let b = visible_names(seq![item]);
        if a.contains(name) {
            assert((a + b)[a.index_of(name)] == name);
            let i = choose|i: int|
                0 <= i < rest.len() && (#[trigger] rest[i]) is Name && rest[i]->Name_0@ == name;
            assert(items[i] == rest[i]);
        }
        if b.contains(name) {
            assert((a + b)[a.len() + b.index_of(name)] == name);
            assert(items[items.len() - 1] == item);
        }
        if (a + b).contains(name) {
            let k = (a + b).index_of(name);
            if k < a.len() {
                assert(a[k] == name);
            } else {
                assert(b[k - a.len()] == name);
            }
        }
        if name != "target"@ && name != ".git"@ {
            if exists|i: int|
                0 <= i < items.len() && (#[trigger] items[i]) is Name && items[i]->Name_0@
                    == name {
                let i = choose|i: int|
                    0 <= i < items.len() && (#[trigger] items[i]) is Name && items[i]->Name_0@
                        == name;
                if i < rest.len() {
                    assert(rest[i] == items[i]);
                } else {
                    assert(b == seq![name]);
                    assert(b[0] == name);
                }
            }
        }
    }
}

/// Whether a listing has the name `name`.
pub open spec fn lists_name(items: Seq<DirItem>, name: Seq<char>) -> bool {
    exists|i: int|
        0 <= i < items.len() && (#[trigger] items[i]) is Name && items[i]->Name_0@ == name
}

} // verus!
