//! Retention in the repository of the build-toolchain image.
//!
//! Every build leaves a tagged artifact there, so the tag-based rule finds
//! nothing to remove. Instead only the artifact tagged `latest` is kept, with
//! every digest that can be reached from it through `references`; all the rest
//! of the repository goes, tagged or not.

use vstd::prelude::*;
use vstd::set_lib::{lemma_int_range, lemma_len_subset, set_int_range};
use crate::model::Artifact;
use crate::text::{has_text, same_text, texts};

verus! {

/// The digests of `artifacts`, in order.
pub open spec fn digests(artifacts: Seq<Artifact>) -> Seq<Seq<char>> {
    artifacts.map_values(|a: Artifact| a.digest@)
}

/// Some artifact with digest `parent` lists `child` among its references.
pub open spec fn refers(artifacts: Seq<Artifact>, parent: Seq<char>, child: Seq<char>) -> bool {
    exists|i: int|
        0 <= i < artifacts.len() && (#[trigger] artifacts[i]).digest@ == parent
            && artifacts[i].child_digests().contains(child)
}

/// Each digest of `path` refers to the next.
pub open spec fn is_path(artifacts: Seq<Artifact>, path: Seq<Seq<char>>) -> bool {
    forall|k: int|
        0 <= k < path.len() - 1 ==> refers(artifacts, #[trigger] path[k], path[k + 1])
}

/// `d` is `root` or is reached from it by following references.
pub open spec fn reachable(artifacts: Seq<Artifact>, root: Seq<char>, d: Seq<char>) -> bool {
    exists|path: Seq<Seq<char>>|
        path.len() > 0 && path[0] == root && path.last() == d && #[trigger] is_path(
            artifacts,
            path,
        )
}

/// The digests of the artifacts that are not kept when `root` is, in the
/// order of `artifacts`.
pub open spec fn swept(artifacts: Seq<Artifact>, root: Seq<char>) -> Seq<Seq<char>> {
    digests(artifacts).filter(|d: Seq<char>| !reachable(artifacts, root, d))
}

/// `i` is the first artifact that carries the tag `tag`.
pub open spec fn first_tagged(artifacts: Seq<Artifact>, tag: Seq<char>, i: int) -> bool {
    &&& 0 <= i < artifacts.len()
    &&& artifacts[i].tag_names().contains(tag)
    &&& forall|j: int| 0 <= j < i ==> !(#[trigger] artifacts[j]).tag_names().contains(tag)
}

/// A set of digests that holds the start of a path and, with every digest,
/// all that it refers to, holds the whole path.
proof fn lemma_closed_set_holds_path(
    artifacts: Seq<Artifact>,
    keep: Seq<Seq<char>>,
    path: Seq<Seq<char>>,
    k: int,
)
    requires
        0 <= k < path.len(),
        is_path(artifacts, path),
        keep.contains(path[0]),
        forall|i: int, c: Seq<char>|
            0 <= i < artifacts.len() && keep.contains((#[trigger] artifacts[i]).digest@)
                && #[trigger] artifacts[i].child_digests().contains(c) ==> keep.contains(c),
    ensures
        keep.contains(path[k]),
    decreases k,
{
    if k > 0 {
        lemma_closed_set_holds_path(artifacts, keep, path, k - 1);
        assert(refers(artifacts, path[k - 1], path[k - 1 + 1]));
        let i = choose|i: int|
            0 <= i < artifacts.len() && (#[trigger] artifacts[i]).digest@ == path[k - 1]
                && artifacts[i].child_digests().contains(path[k]);
        assert(artifacts[i].child_digests().contains(path[k]));
    }
}

/// What an artifact refers to is reachable where the artifact is.
proof fn lemma_child_is_reachable(
    artifacts: Seq<Artifact>,
    root: Seq<char>,
    i: int,
    c: Seq<char>,
)
    requires
        0 <= i < artifacts.len(),
        reachable(artifacts, root, artifacts[i].digest@),
        artifacts[i].child_digests().contains(c),
    ensures
        reachable(artifacts, root, c),
{
    let path = choose|path: Seq<Seq<char>>|
        path.len() > 0 && path[0] == root && path.last() == artifacts[i].digest@
            && #[trigger] is_path(artifacts, path);
    let longer = path.push(c);
    assert forall|k: int| 0 <= k < longer.len() - 1 implies refers(
        artifacts,
        #[trigger] longer[k],
        longer[k + 1],
    ) by {
        if k < path.len() - 1 {
            assert(refers(artifacts, path[k], path[k + 1]));
        } else {
            assert(artifacts[i].digest@ == longer[k]);
        }
    }
    assert(is_path(artifacts, longer));
}

/// The index of the first artifact that carries the tag `tag`.
pub fn find_tagged(artifacts: &Vec<Artifact>, tag: &str) -> (r: Option<usize>)
    ensures
        match r {
            Some(i) => first_tagged(artifacts@, tag@, i as int),
            None => forall|j: int|
                0 <= j < artifacts.len() ==> !(#[trigger] artifacts@[j]).tag_names().contains(tag@),
        },
{
    let mut i: usize = 0;
    while i < artifacts.len()
        invariant
            i <= artifacts.len(),
            forall|j: int| 0 <= j < i ==> !(#[trigger] artifacts@[j]).tag_names().contains(tag@),
        decreases artifacts.len() - i,
    {
        if carries_tag(&artifacts[i], tag) {
            return Some(i);
        }
        i += 1;
    }
    None
}

/// Whether `artifact` carries the tag `tag`.
pub fn carries_tag(artifact: &Artifact, tag: &str) -> (r: bool)
    ensures
        r == artifact.tag_names().contains(tag@),
{
    match &artifact.tags {
        None => false,
        Some(tags) => {
            let mut i: usize = 0;
            while i < tags.len()
                invariant
                    i <= tags.len(),
                    artifact.tags == Some(*tags),
                    forall|j: int| 0 <= j < i ==> (#[trigger] artifact.tag_names()[j]) != tag@,
                decreases tags.len() - i,
            {
                if same_text(tags[i].name.as_str(), tag) {
                    assert(artifact.tag_names()[i as int] == tag@);
                    return true;
                }
                i += 1;
            }
            false
        },
    }
}

/// Adds to `keep` what `artifact` refers to and `keep` does not hold yet.
fn keep_children(artifact: &Artifact, keep: &mut Vec<String>)
    ensures
        old(keep)@.len() <= final(keep)@.len(),
        forall|k: int| 0 <= k < old(keep)@.len() ==> final(keep)@[k] == old(keep)@[k],
        forall|k: int|
            old(keep)@.len() <= k < final(keep)@.len() ==> artifact.child_digests().contains(
                #[trigger] texts(final(keep)@)[k],
            ),
        forall|c: Seq<char>| #[trigger]
            artifact.child_digests().contains(c) ==> texts(final(keep)@).contains(c),
{
    match &artifact.references {
        None => {},
        Some(refs) => {
            let ghost start = keep@.len();
            let mut i: usize = 0;
            while i < refs.len()
                invariant
                    i <= refs.len(),
                    artifact.references == Some(*refs),
                    start == old(keep)@.len(),
                    start <= keep@.len(),
                    forall|k: int| 0 <= k < start ==> keep@[k] == old(keep)@[k],
                    forall|k: int|
                        start <= k < keep@.len() ==> artifact.child_digests().contains(
                            #[trigger] texts(keep@)[k],
                        ),
                    forall|j: int|
                        0 <= j < i ==> texts(keep@).contains(#[trigger] artifact.child_digests()[j]),
                decreases refs.len() - i,
            {
                let child = &refs[i].child_digest;
                assert(artifact.child_digests()[i as int] == child@);
                let ghost before = keep@;
                if !has_text(keep, child.as_str()) {
                    keep.push(child.clone());
                    assert(texts(keep@)[before.len() as int] == child@);
                }
                proof {
                    assert(artifact.child_digests().contains(child@));
                    assert forall|k: int| start <= k < keep@.len() implies
                        artifact.child_digests().contains(#[trigger] texts(keep@)[k]) by {
                        if k < before.len() {
                            assert(texts(keep@)[k] == texts(before)[k]);
                        }
                    }
                    assert forall|j: int| 0 <= j <= i implies texts(keep@).contains(
                        #[trigger] artifact.child_digests()[j],
                    ) by {
                        let c = artifact.child_digests()[j];
                        if j < i {
                            assert(texts(before).contains(c));
                            let k = choose|k: int| 0 <= k < before.len() && texts(before)[k] == c;
                            assert(texts(keep@)[k] == c);
                        } else if texts(before).contains(c) {
                            let k = choose|k: int| 0 <= k < before.len() && texts(before)[k] == c;
                            assert(texts(keep@)[k] == c);
                        }
                    }
                }
                i += 1;
            }
            proof {
                assert forall|c: Seq<char>| #[trigger]
                    artifact.child_digests().contains(c) implies texts(keep@).contains(c) by {
                    let j = choose|j: int|
                        0 <= j < artifact.child_digests().len() && artifact.child_digests()[j] == c;
                    assert(texts(keep@).contains(artifact.child_digests()[j]));
                }
            }
        },
    }
}

/// An artifact that has not been followed yet although its digest is kept.
fn next_to_follow(artifacts: &Vec<Artifact>, followed: &Vec<bool>, keep: &Vec<String>) -> (r:
    Option<usize>)
    requires
        followed.len() == artifacts.len(),
    ensures
        match r {
            Some(i) => i < artifacts.len() && !followed@[i as int] && texts(keep@).contains(
                artifacts@[i as int].digest@,
            ),
            None => forall|j: int|
                0 <= j < artifacts.len() && texts(keep@).contains(
                    (#[trigger] artifacts@[j]).digest@,
                ) ==> followed@[j],
        },
{
    let mut i: usize = 0;
    while i < artifacts.len()
        invariant
            i <= artifacts.len(),
            followed.len() == artifacts.len(),
            forall|j: int|
                0 <= j < i && texts(keep@).contains((#[trigger] artifacts@[j]).digest@)
                    ==> followed@[j],
        decreases artifacts.len() - i,
    {
        if !followed[i] && has_text(keep, artifacts[i].digest.as_str()) {
            return Some(i);
        }
        i += 1;
    }
    None
}

/// The digests that are kept when the artifact with digest `root` is: `root`
/// and all that is reachable from it.
fn kept_digests(artifacts: &Vec<Artifact>, root: &str) -> (keep: Vec<String>)
    ensures
        forall|d: Seq<char>| texts(keep@).contains(d) <==> reachable(artifacts@, root@, d),
{
    let n = artifacts.len();
    let mut keep: Vec<String> = Vec::new();
    keep.push(root.to_owned());
    let mut followed: Vec<bool> = Vec::new();
    let mut k: usize = 0;
    while k < n
        invariant
            k <= n,
            followed.len() == k,
            forall|j: int| 0 <= j < k ==> !followed@[j],
        decreases n - k,
    {
        followed.push(false);
        k += 1;
    }
    let mut count: usize = 0;
    let ghost mut done: Set<int> = Set::empty();
    proof {
        assert(texts(keep@)[0] == root@);
        assert(is_path(artifacts@, seq![root@]));
        assert(reachable(artifacts@, root@, root@));
    }
    loop
        invariant
            n == artifacts.len(),
            followed.len() == n,
            count <= n,
            done.finite(),
            done.len() == count,
            forall|j: int| done.contains(j) <==> (0 <= j < n && followed@[j]),
            texts(keep@).contains(root@),
            forall|x: int|
                0 <= x < keep@.len() ==> reachable(artifacts@, root@, #[trigger] texts(keep@)[x]),
            forall|j: int, c: Seq<char>|
                0 <= j < n && followed@[j] && #[trigger] artifacts@[j].child_digests().contains(c)
                    ==> texts(keep@).contains(c),
        ensures
            forall|j: int|
                0 <= j < n && texts(keep@).contains((#[trigger] artifacts@[j]).digest@)
                    ==> followed@[j],
        decreases n - count,
    {
        let pick = next_to_follow(artifacts, &followed, &keep);
        match pick {
            None => {
                break ;
            },
            Some(i) => {
                let ghost before = keep@;
                let ghost was = followed@;
                keep_children(&artifacts[i], &mut keep);
                followed.set(i, true);
                proof {
                    assert forall|x: int| 0 <= x < before.len() implies texts(keep@)[x] == texts(
                        before,
                    )[x] by {}
                    assert forall|d: Seq<char>| texts(before).contains(d) implies texts(
                        keep@,
                    ).contains(d) by {
                        let x = choose|x: int| 0 <= x < before.len() && texts(before)[x] == d;
                        assert(texts(keep@)[x] == d);
                    }
                    assert(reachable(artifacts@, root@, artifacts@[i as int].digest@)) by {
                        let x = choose|x: int|
                            0 <= x < before.len() && texts(before)[x] == artifacts@[i as int].digest@;
                        assert(reachable(artifacts@, root@, texts(before)[x]));
                    }
                    assert forall|x: int| 0 <= x < keep@.len() implies reachable(
                        artifacts@,
                        root@,
                        #[trigger] texts(keep@)[x],
                    ) by {
                        if x < before.len() {
                            assert(texts(keep@)[x] == texts(before)[x]);
                        } else {
                            lemma_child_is_reachable(
                                artifacts@,
                                root@,
                                i as int,
                                texts(keep@)[x],
                            );
                        }
                    }
                    assert forall|j: int, c: Seq<char>|
                        0 <= j < n && followed@[j]
                            && #[trigger] artifacts@[j].child_digests().contains(
                            c,
                        ) implies texts(keep@).contains(c) by {
                        if j != i {
                            assert(was[j]);
                            assert(texts(before).contains(c));
                        }
                    }
                    let grown = done.insert(i as int);
                    lemma_int_range(0, n as int);
                    assert(grown.subset_of(set_int_range(0, n as int)));
                    lemma_len_subset(grown, set_int_range(0, n as int));
                    done = grown;
                }
                count += 1;
            },
        }
    }
    proof {
        assert forall|d: Seq<char>| texts(keep@).contains(d) <==> reachable(
            artifacts@,
            root@,
            d,
        ) by {
            if texts(keep@).contains(d) {
                let x = choose|x: int| 0 <= x < keep@.len() && texts(keep@)[x] == d;
                assert(reachable(artifacts@, root@, texts(keep@)[x]));
            }
            if reachable(artifacts@, root@, d) {
                let path = choose|path: Seq<Seq<char>>|
                    path.len() > 0 && path[0] == root@ && path.last() == d && #[trigger] is_path(
                        artifacts@,
                        path,
                    );
                lemma_closed_set_holds_path(artifacts@, texts(keep@), path, path.len() - 1);
            }
        }
    }
    keep
}

/// The digests of the artifacts to remove from the repository when the
/// artifact with digest `root` is kept: those that are neither `root` nor
/// reachable from it through references, in the order of `artifacts`.
pub fn sweep(artifacts: &Vec<Artifact>, root: &str) -> (found: Vec<String>)
    ensures
        texts(found@) == swept(artifacts@, root@),
{
    let keep = kept_digests(artifacts, root);
    let ghost all = digests(artifacts@);
    let ghost pred = |d: Seq<char>| !reachable(artifacts@, root@, d);
    let mut found: Vec<String> = Vec::new();
    let mut i: usize = 0;
    proof {
        assert(all.take(0) =~= Seq::<Seq<char>>::empty());
        reveal(Seq::filter);
        assert(texts(found@) =~= all.take(0).filter(pred));
    }
    while i < artifacts.len()
        invariant
            i <= artifacts.len(),
            all == digests(artifacts@),
            pred == (|d: Seq<char>| !reachable(artifacts@, root@, d)),
            forall|d: Seq<char>| texts(keep@).contains(d) <==> reachable(artifacts@, root@, d),
            texts(found@) == all.take(i as int).filter(pred),
        decreases artifacts.len() - i,
    {
        let ghost before = texts(found@);
        proof {
            assert(all.take(i + 1) =~= all.take(i as int).push(all[i as int]));
            all.take(i as int).lemma_filter_push(all[i as int], pred);
        }
        if !has_text(&keep, artifacts[i].digest.as_str()) {
            found.push(artifacts[i].digest.clone());
            assert(texts(found@) =~= before.push(artifacts@[i as int].digest@));
        }
        i += 1;
    }
    assert(all.take(artifacts.len() as int) =~= all);
    found
}

/// The digests of the artifacts to remove from the toolchain repository:
/// all but the first artifact tagged `latest` and what is reachable from it.
/// `None` where no artifact is tagged `latest`: without that artifact nothing
/// says what to keep, and nothing is removed.
pub fn sweep_but_latest(artifacts: &Vec<Artifact>) -> (r: Option<Vec<String>>)
    ensures
        match r {
            Some(found) => exists|i: int|
                first_tagged(artifacts@, "latest"@, i) && texts(found@) == swept(
                    artifacts@,
                    #[trigger] artifacts@[i].digest@,
                ),
            None => forall|j: int|
                0 <= j < artifacts.len() ==> !(#[trigger] artifacts@[j]).tag_names().contains(
                    "latest"@,
                ),
        },
{
    match find_tagged(artifacts, "latest") {
        Some(i) => Some(sweep(artifacts, artifacts[i].digest.as_str())),
        None => None,
    }
}

} // verus!
