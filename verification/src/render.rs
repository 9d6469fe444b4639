//! The index of release artifacts as a page: a tree of releases, each with
//! its repositories, each with its tags, every tag a link to the bill of
//! materials of the artifact it points to.
//!
//! Names are written as they are; the registry's names hold nothing that
//! would need escaping.

use vstd::prelude::*;
use vstd::string::*;
use crate::index::{entry_views, IndexEntry, IndexEntryView, ReleaseIndex};
use crate::text::same_text;

verus! {

/// What stands before the tree.
pub const PAGE_HEAD: &'static str = r#"
<!DOCTYPE html>
<html lang="en">
<head>
    <meta charset="UTF-8">
    <meta name="viewport" content="width=device-width, initial-scale=1.0">
    <title>Stackable :: SBOM Browser</title>
    <style>
        body {
            font-family: Arial, sans-serif;
            padding: 20px;
            font-size: 20px;
        }
        ul {
            list-style-type: none;
            padding: 0;
            cursor: pointer;
        }
        li {
            margin: 6px 0;
            padding-left: 25px;
            position: relative;
            flex-direction: column;
            justify-content: center;
            display: none;
        }
        li::before {
            content: "";
            position: absolute;
            top: 4px;
            left: 0;
            width: 10px;
            height: 10px;
            border-top: 2px solid #000;
            border-right: 2px solid #000;
            transform: rotate(45deg);
        }
        li.open > ul > li, ul#tree > li {
            display: flex;
        }
        li.open::before {
            transform: rotate(135deg);
            top: 2px;
            left: 4px;
        }
        li.artifact::before {
            display: none;
        }
    </style>
</head>
<body>
<div align="center">
    <a href="https://stackable.tech/">Stackable Data Platform</a> |
    <a href="https://docs.stackable.tech/">Documentation</a> |
    <a href="https://github.com/orgs/stackabletech/discussions">Discussions</a> |
    <a href="https://discord.gg/7kZ3BNnCAF">Discord</a>
</div>
    <ul id='tree'>"#;

/// What stands behind the tree.
pub const PAGE_FOOT: &'static str = r#"</ul>
    <script>
        const tree = document.getElementById("tree");
        tree.addEventListener("click", (event) => {
            const target = event.target;
            if (target.tagName === "LI") {
                target.classList.toggle("open");
            }
        });
    </script>
</body>
</html>
"#;

/// The start of a release.
pub open spec fn release_open(version: Seq<char>) -> Seq<char> {
    "<li>Release "@ + version + "<ul>"@
}

/// The start of a repository.
pub open spec fn repository_open(repository: Seq<char>) -> Seq<char> {
    "<li>"@ + repository + "<ul>"@
}

/// The end of a repository, and of a release.
pub open spec fn group_close() -> Seq<char> {
    "</ul></li>"@
}

/// The link of one tag.
pub open spec fn tag_item(e: IndexEntryView) -> Seq<char> {
    "<li class='artifact'><a rel='nofollow' href='/sbom/"@ + e.repository + "/"@ + e.digest
        + "'>"@ + e.name + "</a></li>"@
}

/// What is written between the entry before `e` and `e`: the end of the
/// groups that `e` does not belong to any more and the start of those that
/// begin with it.
pub open spec fn groups_before(before: Option<IndexEntryView>, e: IndexEntryView) -> Seq<char> {
    match before {
        None => release_open(e.version) + repository_open(e.repository),
        Some(p) => if p.version != e.version {
            group_close() + group_close() + release_open(e.version) + repository_open(
                e.repository,
            )
        } else if p.repository != e.repository {
            group_close() + repository_open(e.repository)
        } else {
            Seq::empty()
        },
    }
}

/// The tree up to and with the last entry of `s`, its last groups still open.
pub open spec fn open_tree(s: Seq<IndexEntryView>) -> Seq<char>
    decreases s.len(),
{
    if s.len() == 0 {
        Seq::empty()
    } else {
        let before = if s.len() == 1 {
            None
        } else {
            Some(s[s.len() - 2])
        };
        open_tree(s.drop_last()) + groups_before(before, s.last()) + tag_item(s.last())
    }
}

/// The tree of the entries `s`.
pub open spec fn tree(s: Seq<IndexEntryView>) -> Seq<char> {
    if s.len() == 0 {
        Seq::empty()
    } else {
        open_tree(s) + group_close() + group_close()
    }
}

/// The page for the entries `s`.
pub open spec fn page(s: Seq<IndexEntryView>) -> Seq<char> {
    PAGE_HEAD@ + tree(s) + PAGE_FOOT@
}

/// Writes what [`groups_before`] says.
fn write_groups(out: &mut String, before: Option<&IndexEntry>, e: &IndexEntry)
    ensures
        final(out)@ == old(out)@ + groups_before(
            match before {
                Some(p) => Some(p@),
                None => None,
            },
            e@,
        ),
{
    let ghost start = out@;
    let (close_release, open_release, open_repository) = match before {
        None => (false, true, true),
        Some(p) => {
            if !same_text(p.version.as_str(), e.version.as_str()) {
                (true, true, true)
            } else if !same_text(p.repository.as_str(), e.repository.as_str()) {
                (false, false, true)
            } else {
                (false, false, false)
            }
        },
    };
    if before.is_some() && open_repository {
        out.append("</ul></li>");
    }
    if close_release {
        out.append("</ul></li>");
    }
    if open_release {
        out.append("<li>Release ");
        out.append(e.version.as_str());
        out.append("<ul>");
    }
    if open_repository {
        out.append("<li>");
        out.append(e.repository.as_str());
        out.append("<ul>");
    }
    assert(out@ =~= start + groups_before(
        match before {
            Some(p) => Some(p@),
            None => None,
        },
        e@,
    ));
}

/// Writes the link of one tag.
fn write_item(out: &mut String, e: &IndexEntry)
    ensures
        final(out)@ == old(out)@ + tag_item(e@),
{
    let ghost start = out@;
    out.append("<li class='artifact'><a rel='nofollow' href='/sbom/");
    out.append(e.repository.as_str());
    out.append("/");
    out.append(e.tag.digest.as_str());
    out.append("'>");
    out.append(e.tag.name.as_str());
    out.append("</a></li>");
    assert(out@ =~= start + tag_item(e@));
}

/// The page that shows `index`: releases newest first, and below each its
/// repositories and their tags in the order of the index.
pub fn render_as_html(index: &ReleaseIndex) -> (html: String)
    ensures
        html@ == page(index@),
{
    let entries = index.entries();
    let ghost s = entry_views(entries@);
    let mut html = PAGE_HEAD.to_owned();
    let mut i: usize = 0;
    proof {
        assert(s.take(0) =~= Seq::<IndexEntryView>::empty());
        assert(html@ =~= PAGE_HEAD@ + open_tree(s.take(0)));
    }
    while i < entries.len()
        invariant
            i <= entries.len(),
            s == entry_views(entries@),
            html@ == PAGE_HEAD@ + open_tree(s.take(i as int)),
        decreases entries.len() - i,
    {
        let ghost so_far = html@;
        let before = if i == 0 {
            None
        } else {
            Some(&entries[i - 1])
        };
        proof {
            let upto = s.take(i + 1);
            assert(upto.drop_last() =~= s.take(i as int));
            assert(upto.last() == entries@[i as int]@);
            if i > 0 {
                assert(upto[upto.len() - 2] == entries@[i - 1]@);
            }
        }
        write_groups(&mut html, before, &entries[i]);
        write_item(&mut html, &entries[i]);
        assert(html@ =~= PAGE_HEAD@ + open_tree(s.take(i + 1)));
        i += 1;
    }
    assert(s.take(entries.len() as int) =~= s);
    if entries.len() > 0 {
        html.append("</ul></li>");
        html.append("</ul></li>");
    }
    html.append(PAGE_FOOT);
    assert(html@ =~= page(s));
    html
}

} // verus!
