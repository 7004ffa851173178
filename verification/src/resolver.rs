use crate::error::{TreeError, TreeErrorView};
use crate::paths::{is_root, join, join_path, root_path};
use crate::text::str_eq;
use crate::tree::{
    entry_views, lemma_entry_views_push, link_views, Entry, EntryView, Link, LinkView, Tree,
    TreeView,
};
use vstd::prelude::*;

verus! {

/// The test that picks the entries that stand directly below `path`: those
/// whose own path is `path` joined with their name.
pub open spec fn entry_is_child(path: Seq<char>) -> spec_fn(EntryView) -> bool {
    |entry: EntryView| join(path, entry.name) == entry.path
}

/// The test that picks the links that stand directly below `path`.
pub open spec fn link_is_child(path: Seq<char>) -> spec_fn(LinkView) -> bool {
    |link: LinkView| join(path, link.name) == link.path
}

/// How a listing shows a link.
pub open spec fn as_displayed() -> spec_fn(LinkView) -> EntryView {
    |link: LinkView| link.displayed()
}

/// The entries directly below `path`, in the order in which the cache holds
/// them.
pub open spec fn entry_children(entries: Seq<EntryView>, path: Seq<char>) -> Seq<EntryView> {
    entries.filter(entry_is_child(path))
}

/// The links directly below `path`, each as a listing shows it, in the order
/// in which the cache holds them.
pub open spec fn link_children(links: Seq<LinkView>, path: Seq<char>) -> Seq<EntryView> {
    links.filter(link_is_child(path)).map_values(as_displayed())
}

/// What stands directly below `path`: first the links, then the entries.
pub open spec fn direct_children(tree: TreeView, path: Seq<char>) -> Seq<EntryView> {
    link_children(tree.links, path) + entry_children(tree.entries, path)
}

/// Whether the cache holds an entry whose own path is `path`.
pub open spec fn has_entry_at(entries: Seq<EntryView>, path: Seq<char>) -> bool {
    exists|i: int| 0 <= i < entries.len() && (#[trigger] entries[i]).path == path
}

/// Whether a listing of `path` shows what stands below `path` itself: so it
/// is for the root and for every path of a cached entry.
pub open spec fn stands_for_itself(tree: TreeView, path: Seq<char>) -> bool {
    path == root_path() || has_entry_at(tree.entries, path)
}

/// Where the first link that stands at `path` leads; nothing where no link
/// stands there.
pub open spec fn link_target(links: Seq<LinkView>, path: Seq<char>) -> Option<Seq<char>>
    decreases links.len(),
{
    if links.len() == 0 {
        None
    } else if links.first().path == path {
        Some(links.first().target_path)
    } else {
        link_target(links.drop_first(), path)
    }
}

/// The place whose children a listing of `path` shows, found in at most
/// `hops` steps from link to target. The root and every path of a cached
/// entry stand for themselves. Any other path was reached through a link: it
/// stands for what the target of the first link at that path stands for.
/// Nothing is found where no link stands at such a path, or where the steps
/// run out.
pub open spec fn resolve(tree: TreeView, path: Seq<char>, hops: nat) -> Option<Seq<char>>
    decreases hops,
{
    if stands_for_itself(tree, path) {
        Some(path)
    } else if hops == 0 {
        None
    } else {
        match link_target(tree.links, path) {
            Some(target) => resolve(tree, target, (hops - 1) as nat),
            None => None,
        }
    }
}

/// The place whose children a listing of `path` shows: what is found with
/// one step for every link. More steps never find more
/// (`lemma_one_hop_for_every_link_is_enough`).
pub open spec fn resolved_path(tree: TreeView, path: Seq<char>) -> Option<Seq<char>> {
    resolve(tree, path, tree.links.len())
}

/// The listing of `path`: what stands directly below the place that `path`
/// resolves to. Nothing where `path` resolves to no place.
pub open spec fn children_of(tree: TreeView, path: Seq<char>) -> Option<Seq<EntryView>> {
    match resolved_path(tree, path) {
        Some(place) => Some(direct_children(tree, place)),
        None => None,
    }
}

/// A link is found by the first position at which one stands at `path`.
pub proof fn lemma_link_target_at(links: Seq<LinkView>, path: Seq<char>, at: int)
    requires
        0 <= at < links.len(),
        links[at].path == path,
        forall|j: int| 0 <= j < at ==> (#[trigger] links[j]).path != path,
    ensures
        link_target(links, path) == Some(links[at].target_path),
    decreases links.len(),
{
    if at > 0 {
        assert(links[0].path != path);
        let rest = links.drop_first();
        assert forall|j: int| 0 <= j < at - 1 implies (#[trigger] rest[j]).path != path by {
            assert(rest[j] == links[j + 1]);
        }
        lemma_link_target_at(rest, path, at - 1);
    }
}

/// No link is found where none stands at `path`.
pub proof fn lemma_link_target_none(links: Seq<LinkView>, path: Seq<char>)
    requires
        forall|j: int| 0 <= j < links.len() ==> (#[trigger] links[j]).path != path,
    ensures
        link_target(links, path) is None,
    decreases links.len(),
{
    if links.len() > 0 {
        assert(links[0].path != path);
        let rest = links.drop_first();
        assert forall|j: int| 0 <= j < rest.len() implies (#[trigger] rest[j]).path != path by {
            assert(rest[j] == links[j + 1]);
        }
        lemma_link_target_none(rest, path);
    }
}

/// The paths at which links stand.
pub open spec fn link_paths(links: Seq<LinkView>) -> Set<Seq<char>> {
    links.map_values(|link: LinkView| link.path).to_set()
}

/// The number of steps from link to target that lead from `path` to the
/// place it stands for, where `hops` steps are enough to get there.
spec fn hops_used(tree: TreeView, path: Seq<char>, hops: nat) -> nat
    decreases hops,
{
    if stands_for_itself(tree, path) || hops == 0 {
        0
    } else {
        match link_target(tree.links, path) {
            Some(target) => 1 + hops_used(tree, target, (hops - 1) as nat),
            None => 0,
        }
    }
}

/// Whether some number of steps leads from `path` to a place.
spec fn resolves(tree: TreeView, path: Seq<char>) -> bool {
    exists|hops: nat| (#[trigger] resolve(tree, path, hops)) is Some
}

/// The number of steps that lead from `path` to the place it stands for.
spec fn distance(tree: TreeView, path: Seq<char>) -> nat {
    hops_used(tree, path, choose|hops: nat| (#[trigger] resolve(tree, path, hops)) is Some)
}

/// A link stands at every path that has a link target.
proof fn lemma_link_target_is_link_path(links: Seq<LinkView>, path: Seq<char>)
    requires
        link_target(links, path) is Some,
    ensures
        link_paths(links).contains(path),
    decreases links.len(),
{
    let paths = links.map_values(|link: LinkView| link.path);
    if links.first().path == path {
        assert(paths[0] == path);
    } else {
        let rest = links.drop_first();
        lemma_link_target_is_link_path(rest, path);
        let rest_paths = rest.map_values(|link: LinkView| link.path);
        let i = choose|i: int| 0 <= i < rest_paths.len() && rest_paths[i] == path;
        assert(paths[i + 1] == path);
    }
}

/// The steps that were needed are among those that were allowed, and they
/// are enough.
proof fn lemma_hops_used(tree: TreeView, path: Seq<char>, hops: nat)
    requires
        resolve(tree, path, hops) is Some,
    ensures
        hops_used(tree, path, hops) <= hops,
        resolve(tree, path, hops_used(tree, path, hops)) == resolve(tree, path, hops),
    decreases hops,
{
    if !stands_for_itself(tree, path) {
        let target = link_target(tree.links, path)->0;
        lemma_hops_used(tree, target, (hops - 1) as nat);
    }
}

/// The number of steps that are needed does not depend on how many were
/// allowed.
proof fn lemma_hops_used_is_fixed(tree: TreeView, path: Seq<char>, some: nat, other: nat)
    requires
        resolve(tree, path, some) is Some,
        resolve(tree, path, other) is Some,
    ensures
        hops_used(tree, path, some) == hops_used(tree, path, other),
    decreases some,
{
    if !stands_for_itself(tree, path) {
        let target = link_target(tree.links, path)->0;
        lemma_hops_used_is_fixed(tree, target, (some - 1) as nat, (other - 1) as nat);
    }
}

/// The distance of a path is the number of steps that any sufficient
/// allowance uses.
proof fn lemma_distance(tree: TreeView, path: Seq<char>, hops: nat)
    requires
        resolve(tree, path, hops) is Some,
    ensures
        resolves(tree, path),
        distance(tree, path) == hops_used(tree, path, hops),
{
    let chosen = choose|hops: nat| (#[trigger] resolve(tree, path, hops)) is Some;
    lemma_hops_used_is_fixed(tree, path, chosen, hops);
}

/// The paths passed on the way from `path` to its place are all different,
/// and a link stands at each: with the paths in `passed`, which all lie
/// further from their place than `path`, they are no more than there are
/// paths with links.
proof fn lemma_distance_is_bounded(
    tree: TreeView,
    path: Seq<char>,
    hops: nat,
    passed: Set<Seq<char>>,
)
    requires
        resolve(tree, path, hops) is Some,
        passed.finite(),
        passed.subset_of(link_paths(tree.links)),
        forall|other: Seq<char>| #[trigger]
            passed.contains(other) ==> resolves(tree, other) && distance(tree, other) > distance(
                tree,
                path,
            ),
    ensures
        passed.len() + distance(tree, path) <= link_paths(tree.links).len(),
    decreases hops,
{
    broadcast use vstd::seq_lib::seq_to_set_is_finite;

    lemma_distance(tree, path, hops);
    if stands_for_itself(tree, path) {
        vstd::set_lib::lemma_len_subset(passed, link_paths(tree.links));
    } else {
        let target = link_target(tree.links, path)->0;
        lemma_distance(tree, target, (hops - 1) as nat);
        lemma_link_target_is_link_path(tree.links, path);
        let further = passed.insert(path);
        assert(!passed.contains(path));
        assert forall|other: Seq<char>| #[trigger] further.contains(other) implies resolves(
            tree,
            other,
        ) && distance(tree, other) > distance(tree, target) by {
            if other != path {
                assert(passed.contains(other));
            }
        }
        lemma_distance_is_bounded(tree, target, (hops - 1) as nat, further);
    }
}

/// A place that was found stays the same however many steps more are
/// allowed.
pub proof fn lemma_more_hops_find_the_same(tree: TreeView, path: Seq<char>, hops: nat, more: nat)
    requires
        resolve(tree, path, hops) is Some,
        hops <= more,
    ensures
        resolve(tree, path, more) == resolve(tree, path, hops),
    decreases hops,
{
    if !stands_for_itself(tree, path) {
        let target = link_target(tree.links, path)->0;
        lemma_more_hops_find_the_same(tree, target, (hops - 1) as nat, (more - 1) as nat);
    }
}

/// One step for every link is enough: whatever any number of steps finds,
/// that many find too. A path resolves to nothing only where no link stands
/// at a path on the way, or where the way leads in a circle.
pub proof fn lemma_one_hop_for_every_link_is_enough(tree: TreeView, path: Seq<char>, hops: nat)
    requires
        resolve(tree, path, hops) is Some,
    ensures
        resolved_path(tree, path) == resolve(tree, path, hops),
{
    lemma_distance(tree, path, hops);
    lemma_distance_is_bounded(tree, path, hops, Set::empty());
    tree.links.map_values(|link: LinkView| link.path).lemma_cardinality_of_set();
    lemma_hops_used(tree, path, hops);
    lemma_more_hops_find_the_same(
        tree,
        path,
        hops_used(tree, path, hops),
        tree.links.len(),
    );
}

/// The listing of the root, and of every path at which the cache holds an
/// entry, is what stands directly below that path.
pub proof fn lemma_listing_of_a_cached_path(tree: TreeView, path: Seq<char>)
    requires
        stands_for_itself(tree, path),
    ensures
        children_of(tree, path) == Some(direct_children(tree, path)),
{
}

/// A path that is reached through a link is listed as the target of the
/// link is: the listing of a path that is neither the root nor cached is the
/// listing of where the first link at that path leads, and nothing where no
/// link stands there.
pub proof fn lemma_listing_through_a_link(tree: TreeView, path: Seq<char>)
    requires
        !stands_for_itself(tree, path),
    ensures
        children_of(tree, path) == match link_target(tree.links, path) {
            Some(target) => children_of(tree, target),
            None => None,
        },
{
    if link_target(tree.links, path) is Some {
        let target = link_target(tree.links, path)->0;
        let links = tree.links.len();
        assert(links > 0);
        let fewer = (links - 1) as nat;
        assert(resolve(tree, path, links) == resolve(tree, target, fewer));
        if resolve(tree, target, fewer) is Some {
            lemma_more_hops_find_the_same(tree, target, fewer, links);
        } else if resolve(tree, target, links) is Some {
            assert(resolve(tree, path, links + 1) == resolve(tree, target, links));
            lemma_one_hop_for_every_link_is_enough(tree, path, links + 1);
        }
    }
}

/// A listing holds exactly the links and entries whose path is the listed
/// place joined with their name: every one of them, and nothing else.
pub proof fn lemma_direct_children_exact(tree: TreeView, path: Seq<char>, item: EntryView)
    ensures
        direct_children(tree, path).contains(item) <==> ((exists|i: int|
            0 <= i < tree.links.len() && join(path, (#[trigger] tree.links[i]).name)
                == tree.links[i].path && item == tree.links[i].displayed()) || (exists|i: int|
            0 <= i < tree.entries.len() && join(path, (#[trigger] tree.entries[i]).name)
                == tree.entries[i].path && item == tree.entries[i])),
{
    let kept_links = tree.links.filter(link_is_child(path));
    let from_links = link_children(tree.links, path);
    let from_entries = entry_children(tree.entries, path);
    let all = direct_children(tree, path);
    if all.contains(item) {
        let k = choose|k: int| 0 <= k < all.len() && all[k] == item;
        if k < from_links.len() {
            assert(from_links[k] == kept_links[k].displayed());
            tree.links.lemma_filter_pred(link_is_child(path), k);
            assert(kept_links.contains(kept_links[k]));
            tree.links.lemma_filter_contains_rev(link_is_child(path), kept_links[k]);
            let i = choose|i: int| 0 <= i < tree.links.len() && tree.links[i] == kept_links[k];
            assert(join(path, tree.links[i].name) == tree.links[i].path);
        } else {
            let m = k - from_links.len();
            assert(from_entries[m] == item);
            tree.entries.lemma_filter_pred(entry_is_child(path), m);
            assert(from_entries.contains(item));
            tree.entries.lemma_filter_contains_rev(entry_is_child(path), item);
            let i = choose|i: int| 0 <= i < tree.entries.len() && tree.entries[i] == item;
            assert(join(path, tree.entries[i].name) == tree.entries[i].path);
        }
    }
    if exists|i: int|
        0 <= i < tree.links.len() && join(path, (#[trigger] tree.links[i]).name)
            == tree.links[i].path && item == tree.links[i].displayed() {
        let i = choose|i: int|
            0 <= i < tree.links.len() && join(path, (#[trigger] tree.links[i]).name)
                == tree.links[i].path && item == tree.links[i].displayed();
        tree.links.lemma_filter_contains(link_is_child(path), i);
        let k = choose|k: int| 0 <= k < kept_links.len() && kept_links[k] == tree.links[i];
        assert(from_links[k] == item);
        assert(all[k] == item);
    }
    if exists|i: int|
        0 <= i < tree.entries.len() && join(path, (#[trigger] tree.entries[i]).name)
            == tree.entries[i].path && item == tree.entries[i] {
        let i = choose|i: int|
            0 <= i < tree.entries.len() && join(path, (#[trigger] tree.entries[i]).name)
                == tree.entries[i].path && item == tree.entries[i];
        tree.entries.lemma_filter_contains(entry_is_child(path), i);
        let m = choose|m: int| 0 <= m < from_entries.len() && from_entries[m] == item;
        assert(all[from_links.len() + m] == item);
    }
}

/// What stands directly below `path`, links first, and whether the cache
/// holds an entry at `path` itself.
pub fn get_entries_with_path(tree: &Tree, path: &str) -> (found: (Vec<Entry>, bool))
    ensures
        entry_views(found.0@) == direct_children(tree@, path@),
        found.1 == has_entry_at(tree@.entries, path@),
{
    let mut children: Vec<Entry> = Vec::new();
    let mut i: usize = 0;
    while i < tree.links.len()
        invariant
            i <= tree.links.len(),
            entry_views(children@) == link_children(tree@.links.take(i as int), path@),
        decreases tree.links.len() - i,
    {
        let link = &tree.links[i];
        let joined = join_path(path, link.name.as_str());
        proof {
            let seen = tree@.links.take(i as int);
            assert(tree@.links.take(i + 1) =~= seen.push(link@));
            seen.lemma_filter_push(link@, link_is_child(path@));
            seen.filter(link_is_child(path@)).lemma_push_map_commute(as_displayed(), link@);
        }
        if str_eq(joined.as_str(), link.path.as_str()) {
            let shown = link.to_entry();
            proof {
                lemma_entry_views_push(children@, shown);
            }
            children.push(shown);
        }
        i += 1;
    }
    proof {
        assert(tree@.links.take(i as int) =~= tree@.links);
    }
    let ghost from_links = entry_views(children@);
    let mut present = false;
    let mut k: usize = 0;
    while k < tree.entries.len()
        invariant
            k <= tree.entries.len(),
            from_links == link_children(tree@.links, path@),
            entry_views(children@) == from_links + entry_children(
                tree@.entries.take(k as int),
                path@,
            ),
            present == has_entry_at(tree@.entries.take(k as int), path@),
        decreases tree.entries.len() - k,
    {
        let entry = &tree.entries[k];
        let joined = join_path(path, entry.name.as_str());
        proof {
            let seen = tree@.entries.take(k as int);
            let next = tree@.entries.take(k + 1);
            assert(next =~= seen.push(entry@));
            seen.lemma_filter_push(entry@, entry_is_child(path@));
            if has_entry_at(seen, path@) {
                let j = choose|j: int| 0 <= j < seen.len() && (#[trigger] seen[j]).path == path@;
                assert(next[j].path == path@);
            }
            if entry@.path == path@ {
                assert(next[k as int].path == path@);
            }
            if has_entry_at(next, path@) && entry@.path != path@ {
                let j = choose|j: int| 0 <= j < next.len() && (#[trigger] next[j]).path == path@;
                assert(seen[j].path == path@);
            }
        }
        if str_eq(joined.as_str(), entry.path.as_str()) {
            let copy = entry.clone();
            proof {
                lemma_entry_views_push(children@, copy);
                assert((from_links + entry_children(tree@.entries.take(k as int), path@)).push(
                    copy@,
                ) =~= from_links + entry_children(tree@.entries.take(k as int), path@).push(
                    copy@,
                ));
            }
            children.push(copy);
        }
        if str_eq(entry.path.as_str(), path) {
            present = true;
        }
        k += 1;
    }
    proof {
        assert(tree@.entries.take(k as int) =~= tree@.entries);
    }
    (children, present)
}

/// Where the first link that stands at `path` leads.
pub fn find_link_target(links: &Vec<Link>, path: &str) -> (target: Option<String>)
    ensures
        match target {
            Some(text) => link_target(link_views(links@), path@) == Some(text@),
            None => link_target(link_views(links@), path@) is None,
        },
{
    let mut i: usize = 0;
    while i < links.len()
        invariant
            i <= links.len(),
            forall|j: int| 0 <= j < i ==> (#[trigger] link_views(links@)[j]).path != path@,
        decreases links.len() - i,
    {
        if str_eq(links[i].path.as_str(), path) {
            proof {
                lemma_link_target_at(link_views(links@), path@, i as int);
            }
            return Some(links[i].target_path.clone());
        }
        i += 1;
    }
    proof {
        lemma_link_target_none(link_views(links@), path@);
    }
    None
}

/// The listing of `path`: what stands directly below the place that `path`
/// resolves to, links first. A path that resolves to no place is reported as
/// `Inconsistent`.
pub fn list_children(tree: &Tree, path: &str) -> (listing: Result<Vec<Entry>, TreeError>)
    ensures
        match listing {
            Ok(children) => children_of(tree@, path@) == Some(entry_views(children@)),
            Err(error) => children_of(tree@, path@) is None && error@
                == TreeErrorView::Inconsistent,
        },
{
    let mut current: String = path.to_owned();
    let mut hops: usize = tree.links.len();
    loop
        invariant
            hops <= tree.links.len(),
            resolved_path(tree@, path@) == resolve(tree@, current@, hops as nat),
        decreases hops,
    {
        let (children, present) = get_entries_with_path(tree, current.as_str());
        if present || is_root(current.as_str()) {
            return Ok(children);
        }
        if hops == 0 {
            return Err(TreeError::Inconsistent);
        }
        match find_link_target(&tree.links, current.as_str()) {
            None => {
                return Err(TreeError::Inconsistent);
            },
            Some(target) => {
                current = target;
                hops = hops - 1;
            },
        }
    }
}

} // verus!
