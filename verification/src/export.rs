//! Standard MIDI File export: grouping fugues by tag into tracks, naming
//! the tracks, encoding each track's timed events as delta times, and the
//! file name an export is saved under.

use vstd::prelude::*;
use crate::routes::str_eq;
use crate::smf::{SmfFormat, SmfWriteEvent, SmfWriteKind, smf_write, smf_written};
use crate::sort::{sort_by_tick, stable_sort_by_tick};
use crate::text::{decimal, push_decimal, str_chars, string_push, parse_unsigned, parse_unsigned_chars};
use crate::bridge::FugueRecord;

verus! {

/// A group of fugues that export as one track: their shared tag (`None`
/// for an untagged fugue, which is always alone) and the positions of the
/// members in the input, in input order.
#[derive(Debug)]
pub struct TagGroup {
    pub tag: Option<String>,
    pub members: Vec<usize>,
}

/// A group as the contracts see it.
pub open spec fn group_view(g: TagGroup) -> (Option<Seq<char>>, Seq<int>) {
    (
        match g.tag {
            Some(t) => Some(t@),
            None => None,
        },
        Seq::new(g.members@.len(), |k: int| g.members@[k] as int),
    )
}

/// Groups as the contracts see them.
pub open spec fn groups_view(gs: Seq<TagGroup>) -> Seq<(Option<Seq<char>>, Seq<int>)> {
    Seq::new(gs.len(), |j: int| group_view(gs[j]))
}

/// The characters of each optional tag.
pub open spec fn tag_texts(tags: Seq<Option<String>>) -> Seq<Option<Seq<char>>> {
    Seq::new(tags.len(), |i: int| match tags[i] {
        Some(t) => Some(t@),
        None => None,
    })
}

/// The first group tagged `t`, if any.
pub open spec fn find_group(g: Seq<(Option<Seq<char>>, Seq<int>)>, t: Seq<char>) -> Option<int>
    decreases g.len(),
{
    if g.len() == 0 {
        None
    } else {
        match find_group(g.drop_last(), t) {
            Some(j) => Some(j),
            None => if g.last().0 == Some(t) { Some(g.len() - 1) } else { None },
        }
    }
}

/// Grouping by tag, one fugue at a time: a tagged fugue joins the group of
/// its tag, or opens a new group at the end when its tag is new; an
/// untagged fugue always opens a group of its own.
pub open spec fn tag_groups(tags: Seq<Option<Seq<char>>>) -> Seq<(Option<Seq<char>>, Seq<int>)>
    decreases tags.len(),
{
    if tags.len() == 0 {
        Seq::empty()
    } else {
        let g = tag_groups(tags.drop_last());
        let i = tags.len() - 1;
        match tags.last() {
            None => g.push((None, seq![i])),
            Some(t) => match find_group(g, t) {
                Some(j) => g.update(j, (g[j].0, g[j].1.push(i))),
                None => g.push((Some(t), seq![i])),
            },
        }
    }
}

proof fn lemma_find_group_first(g: Seq<(Option<Seq<char>>, Seq<int>)>, t: Seq<char>, j: int)
    requires
        0 <= j <= g.len(),
        forall|k: int| 0 <= k < j ==> g[k].0 != Some(t),
    ensures
        j < g.len() && g[j].0 == Some(t) ==> find_group(g, t) == Some(j),
        j == g.len() ==> find_group(g, t) is None,
    decreases g.len(),
{
    if g.len() > 0 {
        let d = g.drop_last();
        if j < g.len() {
            if j < g.len() - 1 {
                lemma_find_group_first(d, t, j);
            } else {
                lemma_find_group_first(d, t, d.len() as int);
            }
        } else {
            lemma_find_group_first(d, t, d.len() as int);
        }
    }
}

/// Groups the fugues with the given tags, as [`tag_groups`] says.
pub fn group_by_tag(tags: &Vec<Option<String>>) -> (r: Vec<TagGroup>)
    ensures
        groups_view(r@) == tag_groups(tag_texts(tags@)),
{
    let ghost names = tag_texts(tags@);
    let mut out: Vec<TagGroup> = Vec::new();
    let mut i: usize = 0;
    assert(names.take(0) =~= Seq::<Option<Seq<char>>>::empty());
    assert(groups_view(out@) =~= tag_groups(names.take(0)));
    while i < tags.len()
        invariant
            i <= tags@.len(),
            names == tag_texts(tags@),
            groups_view(out@) == tag_groups(names.take(i as int)),
        decreases tags@.len() - i,
    {
        let ghost before = groups_view(out@);
        let ghost t1 = names.take(i + 1);
        proof {
            assert(t1.drop_last() =~= names.take(i as int));
            assert(t1.last() == names[i as int]);
        }
        match &tags[i] {
            None => {
                let mut members: Vec<usize> = Vec::new();
                members.push(i);
                out.push(TagGroup { tag: None, members });
                proof {
                    assert(group_view(out@.last()).1 =~= seq![i as int]);
                    assert(groups_view(out@) =~= before.push((None, seq![i as int])));
                }
            },
            Some(t) => {
                let mut j: usize = 0;
                let mut found: bool = false;
                while j < out.len()
                    invariant_except_break
                        !found,
                    invariant
                        j <= out@.len(),
                        before == groups_view(out@),
                        forall|k: int| 0 <= k < j ==> before[k].0 != Some(t@),
                    ensures
                        j <= out@.len(),
                        found ==> j < out@.len() && before[j as int].0 == Some(t@),
                        !found ==> j == out@.len(),
                    decreases out@.len() - j,
                {
                    let same = match &out[j].tag {
                        Some(u) => str_eq(u.as_str(), t.as_str()),
                        None => false,
                    };
                    if same {
                        found = true;
                        break;
                    }
                    j = j + 1;
                }
                proof {
                    assert(before.len() == out@.len());
                }
                if found {
                    proof {
                        assert(group_view(out@[j as int]).0 == Some(t@));
                        lemma_find_group_first(before, t@, j as int);
                    }
                    let ghost old_out = out@;
                    let mut g = out.remove(j);
                    g.members.push(i);
                    out.insert(j, g);
                    proof {
                        let want = before.update(j as int, (before[j as int].0, before[j as int].1.push(i as int)));
                        assert(group_view(out@[j as int]).1 =~= want[j as int].1);
                        assert forall|k: int| 0 <= k < out@.len() implies group_view(#[trigger] out@[k]) == want[k] by {
                            if k != j {
                                assert(out@[k] == old_out[k]);
                            }
                        }
                        assert(groups_view(out@) =~= want);
                    }
                } else {
                    proof {
                        lemma_find_group_first(before, t@, before.len() as int);
                    }
                    let mut members: Vec<usize> = Vec::new();
                    members.push(i);
                    out.push(TagGroup { tag: Some(t.clone()), members });
                    proof {
                        assert(group_view(out@.last()).1 =~= seq![i as int]);
                        assert(groups_view(out@) =~= before.push((Some(t@), seq![i as int])));
                    }
                }
            },
        }
        i = i + 1;
    }
    assert(names.take(tags@.len() as int) =~= names);
    out
}

/// Position `i` is a member of some group of `g`.
pub open spec fn in_some_group(g: Seq<(Option<Seq<char>>, Seq<int>)>, i: int) -> bool {
    exists|j: int, k: int| 0 <= j < g.len() && 0 <= k < g[j].1.len() && #[trigger] g[j].1[k] == i
}

/// Groups `g` split the fugues with tags `tags` by tag: each group is a
/// non-empty list of positions in increasing order whose fugues carry the
/// group's tag; every position is in exactly one group; no two groups share
/// a tag; an untagged fugue is alone in its group; and groups come in the
/// order in which their first member comes.
pub open spec fn groups_partition(tags: Seq<Option<Seq<char>>>, g: Seq<(Option<Seq<char>>, Seq<int>)>) -> bool {
    &&& forall|j: int| 0 <= j < g.len() ==> (#[trigger] g[j]).1.len() > 0
    &&& forall|j: int, k: int| 0 <= j < g.len() && 0 <= k < g[j].1.len() ==>
        0 <= #[trigger] g[j].1[k] < tags.len() && tags[g[j].1[k]] == g[j].0
    &&& forall|j: int, k1: int, k2: int| 0 <= j < g.len() && 0 <= k1 < k2 < g[j].1.len() ==>
        #[trigger] g[j].1[k1] < #[trigger] g[j].1[k2]
    &&& forall|i: int| 0 <= i < tags.len() ==> #[trigger] in_some_group(g, i)
    &&& forall|j1: int, k1: int, j2: int, k2: int|
        0 <= j1 < g.len() && 0 <= k1 < g[j1].1.len() && 0 <= j2 < g.len() && 0 <= k2 < g[j2].1.len()
            && #[trigger] g[j1].1[k1] == #[trigger] g[j2].1[k2] ==> j1 == j2 && k1 == k2
    &&& forall|j1: int, j2: int| 0 <= j1 < j2 < g.len() && (#[trigger] g[j1]).0 is Some ==> g[j1].0 != (#[trigger] g[j2]).0
    &&& forall|j: int| 0 <= j < g.len() && (#[trigger] g[j]).0 is None ==> g[j].1.len() == 1
    &&& forall|j1: int, j2: int| 0 <= j1 < j2 < g.len() ==> (#[trigger] g[j1]).1[0] < (#[trigger] g[j2]).1[0]
}

proof fn lemma_find_group_result(g: Seq<(Option<Seq<char>>, Seq<int>)>, t: Seq<char>)
    ensures
        find_group(g, t) matches Some(j) ==> 0 <= j < g.len() && g[j].0 == Some(t),
        find_group(g, t) is None ==> forall|j: int| 0 <= j < g.len() ==> g[j].0 != Some(t),
    decreases g.len(),
{
    if g.len() > 0 {
        let d = g.drop_last();
        lemma_find_group_result(d, t);
        assert forall|j: int| 0 <= j < d.len() implies d[j] == g[j] by {}
    }
}

/// Grouping by tag partitions the fugues as [`groups_partition`] says.
pub proof fn lemma_tag_groups_partition(tags: Seq<Option<Seq<char>>>)
    ensures
        groups_partition(tags, tag_groups(tags)),
    decreases tags.len(),
{
    if tags.len() > 0 {
        let d = tags.drop_last();
        let n = d.len() as int;
        let g = tag_groups(d);
        lemma_tag_groups_partition(d);
        assert forall|i: int| 0 <= i < n implies tags[i] == d[i] by {}
        let g2 = tag_groups(tags);
        match tags.last() {
            None => {
                let ng = (Option::<Seq<char>>::None, seq![n]);
                assert(g2 == g.push(ng));
                assert(ng.1[0] == n);
                assert forall|j: int, k: int| 0 <= j < g2.len() && 0 <= k < g2[j].1.len() implies
                    0 <= #[trigger] g2[j].1[k] < tags.len() && tags[g2[j].1[k]] == g2[j].0 by {
                    if j < g.len() {
                        assert(g2[j] == g[j]);
                    }
                }
                assert forall|i: int| 0 <= i < tags.len() implies #[trigger] in_some_group(g2, i) by {
                    if i < n {
                        assert(in_some_group(g, i));
                                let (j, k) = choose|j: int, k: int| 0 <= j < g.len() && 0 <= k < g[j].1.len() && #[trigger] g[j].1[k] == i;
                        assert(g2[j] == g[j]);
                        assert(g2[j].1[k] == i);
                    } else {
                        assert(g2[g.len() as int].1[0] == i);
                    }
                }
                assert forall|j1: int, k1: int, j2: int, k2: int|
                    0 <= j1 < g2.len() && 0 <= k1 < g2[j1].1.len() && 0 <= j2 < g2.len() && 0 <= k2 < g2[j2].1.len()
                        && #[trigger] g2[j1].1[k1] == #[trigger] g2[j2].1[k2] implies j1 == j2 && k1 == k2 by {
                    if j1 < g.len() {
                        assert(g2[j1] == g[j1]);
                        assert(g[j1].1[k1] < n);
                    }
                    if j2 < g.len() {
                        assert(g2[j2] == g[j2]);
                        assert(g[j2].1[k2] < n);
                    }
                }
                assert forall|j1: int, j2: int| 0 <= j1 < j2 < g2.len() implies (#[trigger] g2[j1]).1[0] < (#[trigger] g2[j2]).1[0] by {
                    assert(g2[j1] == g[j1]);
                    assert(g[j1].1[0] < n);
                }
            },
            Some(t) => {
                lemma_find_group_result(g, t);
                match find_group(g, t) {
                    Some(j0) => {
                        let ng = (g[j0].0, g[j0].1.push(n));
                        assert(g2 == g.update(j0, ng));
                        assert forall|j: int, k: int| 0 <= j < g2.len() && 0 <= k < g2[j].1.len() implies
                            0 <= #[trigger] g2[j].1[k] < tags.len() && tags[g2[j].1[k]] == g2[j].0 by {
                            if j != j0 {
                                assert(g2[j] == g[j]);
                            } else if k < g[j0].1.len() {
                                assert(g2[j].1[k] == g[j0].1[k]);
                            }
                        }
                        assert forall|j: int, k1: int, k2: int| 0 <= j < g2.len() && 0 <= k1 < k2 < g2[j].1.len() implies
                            #[trigger] g2[j].1[k1] < #[trigger] g2[j].1[k2] by {
                            if j != j0 {
                                assert(g2[j] == g[j]);
                            } else {
                                assert(g2[j].1[k1] == g[j0].1[k1]);
                                if k2 < g[j0].1.len() {
                                    assert(g2[j].1[k2] == g[j0].1[k2]);
                                }
                            }
                        }
                        assert forall|i: int| 0 <= i < tags.len() implies #[trigger] in_some_group(g2, i) by {
                            if i < n {
                                assert(in_some_group(g, i));
                                let (j, k) = choose|j: int, k: int| 0 <= j < g.len() && 0 <= k < g[j].1.len() && #[trigger] g[j].1[k] == i;
                                if j != j0 {
                                    assert(g2[j] == g[j]);
                                }
                                assert(g2[j].1[k] == i);
                            } else {
                                assert(g2[j0].1[g[j0].1.len() as int] == i);
                            }
                        }
                        assert forall|j1: int, k1: int, j2: int, k2: int|
                            0 <= j1 < g2.len() && 0 <= k1 < g2[j1].1.len() && 0 <= j2 < g2.len() && 0 <= k2 < g2[j2].1.len()
                                && #[trigger] g2[j1].1[k1] == #[trigger] g2[j2].1[k2] implies j1 == j2 && k1 == k2 by {
                            if j1 != j0 {
                                assert(g2[j1] == g[j1]);
                                assert(g[j1].1[k1] < n);
                            } else if k1 < g[j0].1.len() {
                                assert(g2[j1].1[k1] == g[j0].1[k1]);
                            }
                            if j2 != j0 {
                                assert(g2[j2] == g[j2]);
                                assert(g[j2].1[k2] < n);
                            } else if k2 < g[j0].1.len() {
                                assert(g2[j2].1[k2] == g[j0].1[k2]);
                            }
                        }
                        assert forall|j1: int, j2: int| 0 <= j1 < j2 < g2.len() && (#[trigger] g2[j1]).0 is Some implies
                            g2[j1].0 != (#[trigger] g2[j2]).0 by {
                            assert(g2[j1].0 == g[j1].0 && g2[j2].0 == g[j2].0);
                        }
                        assert forall|j: int| 0 <= j < g2.len() && (#[trigger] g2[j]).0 is None implies g2[j].1.len() == 1 by {
                            if j != j0 {
                                assert(g2[j] == g[j]);
                            }
                        }
                        assert forall|j1: int, j2: int| 0 <= j1 < j2 < g2.len() implies (#[trigger] g2[j1]).1[0] < (#[trigger] g2[j2]).1[0] by {
                            assert(g2[j1].1[0] == g[j1].1[0]);
                            assert(g2[j2].1[0] == g[j2].1[0]);
                        }
                        assert forall|j: int| 0 <= j < g2.len() implies (#[trigger] g2[j]).1.len() > 0 by {
                            if j != j0 {
                                assert(g2[j] == g[j]);
                            }
                        }
                    },
                    None => {
                        let ng = (Some(t), seq![n]);
                        assert(g2 == g.push(ng));
                        assert(ng.1[0] == n);
                        assert forall|j: int, k: int| 0 <= j < g2.len() && 0 <= k < g2[j].1.len() implies
                            0 <= #[trigger] g2[j].1[k] < tags.len() && tags[g2[j].1[k]] == g2[j].0 by {
                            if j < g.len() {
                                assert(g2[j] == g[j]);
                            }
                        }
                        assert forall|i: int| 0 <= i < tags.len() implies #[trigger] in_some_group(g2, i) by {
                            if i < n {
                                assert(in_some_group(g, i));
                                let (j, k) = choose|j: int, k: int| 0 <= j < g.len() && 0 <= k < g[j].1.len() && #[trigger] g[j].1[k] == i;
                                assert(g2[j] == g[j]);
                                assert(g2[j].1[k] == i);
                            } else {
                                assert(g2[g.len() as int].1[0] == i);
                            }
                        }
                        assert forall|j1: int, k1: int, j2: int, k2: int|
                            0 <= j1 < g2.len() && 0 <= k1 < g2[j1].1.len() && 0 <= j2 < g2.len() && 0 <= k2 < g2[j2].1.len()
                                && #[trigger] g2[j1].1[k1] == #[trigger] g2[j2].1[k2] implies j1 == j2 && k1 == k2 by {
                            if j1 < g.len() {
                                assert(g2[j1] == g[j1]);
                                assert(g[j1].1[k1] < n);
                            }
                            if j2 < g.len() {
                                assert(g2[j2] == g[j2]);
                                assert(g[j2].1[k2] < n);
                            }
                        }
                        assert forall|j1: int, j2: int| 0 <= j1 < j2 < g2.len() && (#[trigger] g2[j1]).0 is Some implies
                            g2[j1].0 != (#[trigger] g2[j2]).0 by {
                            assert(g2[j1] == g[j1]);
                            if j2 < g.len() {
                                assert(g2[j2] == g[j2]);
                            }
                        }
                        assert forall|j1: int, j2: int| 0 <= j1 < j2 < g2.len() implies (#[trigger] g2[j1]).1[0] < (#[trigger] g2[j2]).1[0] by {
                            assert(g2[j1] == g[j1]);
                            assert(g[j1].1[0] < n);
                        }
                    },
                }
            },
        }
    }
}

/// Number of untagged fugues among `tags`.
pub open spec fn untagged_count(tags: Seq<Option<Seq<char>>>) -> nat
    decreases tags.len(),
{
    if tags.len() == 0 {
        0
    } else {
        untagged_count(tags.drop_last()) + if tags.last() is None { 1nat } else { 0nat }
    }
}

/// The names of the exported tracks: a fugue's tag, or `fugue-N` for the
/// `N`th untagged fugue.
pub open spec fn export_track_names(tags: Seq<Option<Seq<char>>>) -> Seq<Seq<char>>
    decreases tags.len(),
{
    if tags.len() == 0 {
        Seq::empty()
    } else {
        export_track_names(tags.drop_last()).push(match tags.last() {
            Some(t) => t,
            None => "fugue-"@ + decimal(untagged_count(tags.drop_last()) + 1),
        })
    }
}

proof fn lemma_export_track_names_len(tags: Seq<Option<Seq<char>>>)
    ensures
        export_track_names(tags).len() == tags.len(),
    decreases tags.len(),
{
    if tags.len() > 0 {
        lemma_export_track_names_len(tags.drop_last());
    }
}

/// The track name of each of the (already merged) fugues with the given
/// tags, as [`export_track_names`] says.
pub fn track_names(tags: &Vec<Option<String>>) -> (r: Vec<String>)
    ensures
        r@.len() == tags@.len(),
        forall|i: int| 0 <= i < r@.len() ==> (#[trigger] r@[i])@ == export_track_names(tag_texts(tags@))[i],
{
    let ghost names = tag_texts(tags@);
    let mut out: Vec<String> = Vec::new();
    let mut untagged: usize = 0;
    let mut i: usize = 0;
    assert(names.take(0) =~= Seq::<Option<Seq<char>>>::empty());
    while i < tags.len()
        invariant
            i <= tags@.len(),
            names == tag_texts(tags@),
            untagged as nat == untagged_count(names.take(i as int)),
            untagged <= i,
            out@.len() == i,
            forall|j: int| 0 <= j < i ==> (#[trigger] out@[j])@ == export_track_names(names.take(i as int))[j],
        decreases tags@.len() - i,
    {
        let ghost t1 = names.take(i + 1);
        proof {
            assert(t1.drop_last() =~= names.take(i as int));
            assert(t1.last() == names[i as int]);
            lemma_export_track_names_len(t1.drop_last());
        }
        let name = match &tags[i] {
            Some(t) => t.clone(),
            None => {
                untagged = untagged + 1;
                let mut n = String::from_str("fugue-");
                push_decimal(&mut n, untagged as u64);
                n
            },
        };
        proof {
            assert(export_track_names(t1) == export_track_names(names.take(i as int)).push(name@));
        }
        out.push(name);
        i = i + 1;
        proof {
            assert(names.take(i as int) == t1);
        }
    }
    assert(names.take(i as int) =~= names);
    proof {
        lemma_export_track_names_len(names);
    }
    out
}

/// Whether `char::is_alphanumeric` holds of `c` (the Unicode `Alphabetic`
/// or `Numeric` properties).
pub uninterp spec fn unicode_alphanumeric(c: char) -> bool;

/// `char::is_alphanumeric`; its result is named [`unicode_alphanumeric`].
#[verifier::external_body]
fn char_is_alphanumeric(c: char) -> (r: bool)
    ensures
        r == unicode_alphanumeric(c),
{
    c.is_alphanumeric()
}

/// A character kept in a file name: alphanumerics, `-` and `_` stay, any
/// other character becomes `_`.
pub open spec fn file_safe_char(c: char) -> char {
    if unicode_alphanumeric(c) || c == '-' || c == '_' { c } else { '_' }
}

/// The file name an export is saved under: the sanitised tag (`fugue`
/// when there is none), an underscore, the Unix time in seconds, `.mid`.
pub open spec fn export_file_name(tag: Option<Seq<char>>, timestamp_secs: u64) -> Seq<char> {
    let t = match tag {
        Some(t) => t,
        None => "fugue"@,
    };
    Seq::new(t.len(), |i: int| file_safe_char(t[i])) + "_"@ + decimal(timestamp_secs as nat) + ".mid"@
}

/// The file name for exporting a fugue tagged `tag` at `timestamp_secs`,
/// as [`export_file_name`] says.
pub fn generate_filename(tag: Option<&str>, timestamp_secs: u64) -> (r: String)
    ensures
        r@ == export_file_name(
            match tag {
                Some(t) => Some(t@),
                None => None,
            },
            timestamp_secs,
        ),
{
    let chars = match tag {
        Some(t) => str_chars(t),
        None => str_chars("fugue"),
    };
    let mut out = String::new();
    let mut i: usize = 0;
    while i < chars.len()
        invariant
            i <= chars@.len(),
            out@ =~= Seq::new(i as nat, |k: int| file_safe_char(chars@[k])),
        decreases chars@.len() - i,
    {
        let c = chars[i];
        let keep = char_is_alphanumeric(c) || c == '-' || c == '_';
        string_push(&mut out, if keep { c } else { '_' });
        i = i + 1;
    }
    out.append("_");
    push_decimal(&mut out, timestamp_secs);
    out.append(".mid");
    proof {
        let t = match tag {
            Some(t) => t@,
            None => "fugue"@,
        };
        assert(chars@ == t);
    }
    out
}

/// The gap from tick `b` to tick `a`, zero when `a` comes first.
pub open spec fn tick_gap(a: u64, b: u64) -> u64 {
    if a >= b { (a - b) as u64 } else { 0 }
}

/// Delta-encodes timed events: each event's delta is the gap from the
/// previous event's tick (from zero for the first).
pub open spec fn delta_encoded(s: Seq<(u64, SmfWriteKind)>) -> Seq<SmfWriteEvent> {
    Seq::new(s.len(), |i: int| SmfWriteEvent {
        delta: tick_gap(s[i].0, if i == 0 { 0 } else { s[i - 1].0 }) as u32,
        kind: s[i].1,
    })
}

/// Widens the ticks of events to `u64`.
pub open spec fn widen_ticks(s: Seq<(u32, SmfWriteKind)>) -> Seq<(u64, SmfWriteKind)> {
    Seq::new(s.len(), |i: int| (s[i].0 as u64, s[i].1))
}

/// The track body for timed events: stably sorted by tick, then
/// delta-encoded.
pub open spec fn encoded_events(events: Seq<(u32, SmfWriteKind)>) -> Seq<SmfWriteEvent> {
    delta_encoded(sort_by_tick(widen_ticks(events)))
}

/// Sorts timed events by tick (keeping the order of equal ticks) and
/// delta-encodes them, as [`encoded_events`] says.
pub fn encode_events(events: Vec<(u32, SmfWriteKind)>) -> (r: Vec<SmfWriteEvent>)
    ensures
        r@ == encoded_events(events@),
{
    let ghost input = events@;
    let mut wide: Vec<(u64, SmfWriteKind)> = Vec::new();
    for ev in it: events.into_iter()
        invariant
            it.seq() == input,
            wide@ =~= widen_ticks(input.take(it.index() as int)),
    {
        let (t, k) = ev;
        wide.push((t as u64, k));
    }
    assert(input.take(input.len() as int) =~= input);
    let sorted = stable_sort_by_tick(wide);
    let ghost ss = sorted@;
    let mut out: Vec<SmfWriteEvent> = Vec::new();
    let mut last: u64 = 0;
    for ev in it: sorted.into_iter()
        invariant
            it.seq() == ss,
            last == if it.index() == 0 { 0 } else { ss[it.index() - 1].0 },
            out@ =~= delta_encoded(ss).take(it.index() as int),
    {
        let (t, k) = ev;
        let gap: u64 = t.saturating_sub(last);
        out.push(SmfWriteEvent { delta: gap as u32, kind: k });
        last = t;
    }
    assert(delta_encoded(ss).take(ss.len() as int) =~= delta_encoded(ss));
    out
}

/// Ticks per quarter note of exported files.
pub const EXPORT_PPQ: u16 = 480;

/// `r` is the track named `name` holding `events`: the name at tick zero,
/// the events as [`encoded_events`] says, and the end of the track.
pub open spec fn is_named_track(r: Seq<SmfWriteEvent>, name: Seq<char>, events: Seq<(u32, SmfWriteKind)>) -> bool {
    &&& r.len() == events.len() + 2
    &&& r[0].delta == 0
    &&& r[0].kind matches SmfWriteKind::TrackName(b) && b@ == vstd::utf8::encode_utf8(name)
    &&& r.subrange(1, r.len() - 1) == encoded_events(events)
    &&& r.last() == SmfWriteEvent { delta: 0, kind: SmfWriteKind::EndOfTrack }
}

/// The track named `name` holding `events`, as [`is_named_track`] says.
pub fn build_named_track(name: &str, events: Vec<(u32, SmfWriteKind)>) -> (r: Vec<SmfWriteEvent>)
    ensures
        is_named_track(r@, name@, events@),
{
    let ghost input = events@;
    proof {
        crate::sort::lemma_sort_by_tick_sorted(widen_ticks(input));
    }
    let body = encode_events(events);
    let mut track: Vec<SmfWriteEvent> = Vec::new();
    let bytes = vstd::slice::slice_to_vec(name.as_bytes());
    track.push(SmfWriteEvent { delta: 0, kind: SmfWriteKind::TrackName(bytes) });
    let ghost head = track@;
    let mut rest = body;
    track.append(&mut rest);
    track.push(SmfWriteEvent { delta: 0, kind: SmfWriteKind::EndOfTrack });
    assert(track@.subrange(1, track@.len() - 1) =~= encoded_events(input));
    track
}

/// The conductor track of a multi-track file: the tempo at tick zero and
/// the end of the track.
pub fn build_conductor_track(tempo_us: u32) -> (r: Vec<SmfWriteEvent>)
    ensures
        r@ == seq![
            SmfWriteEvent { delta: 0, kind: SmfWriteKind::Tempo(tempo_us) },
            SmfWriteEvent { delta: 0, kind: SmfWriteKind::EndOfTrack },
        ],
{
    let mut t: Vec<SmfWriteEvent> = Vec::new();
    t.push(SmfWriteEvent { delta: 0, kind: SmfWriteKind::Tempo(tempo_us) });
    t.push(SmfWriteEvent { delta: 0, kind: SmfWriteKind::EndOfTrack });
    assert(t@ =~= seq![
        SmfWriteEvent { delta: 0, kind: SmfWriteKind::Tempo(tempo_us) },
        SmfWriteEvent { delta: 0, kind: SmfWriteKind::EndOfTrack },
    ]);
    t
}

/// One exported track: its name and its events at their ticks.
#[derive(Debug)]
pub struct ExportedTrack {
    pub name: String,
    pub events: Vec<(u32, SmfWriteKind)>,
}

/// A multi-track export: the tempo in microseconds per quarter note and
/// one track per merged fugue.
#[derive(Debug)]
pub struct ExportedMidi {
    pub tempo_us: u32,
    pub tracks: Vec<ExportedTrack>,
}

/// `r` are the tracks of a multi-track file with the given tempo and
/// tracks: the conductor track, then one named track per track.
pub open spec fn is_export_layout(r: Seq<Vec<SmfWriteEvent>>, tempo_us: u32, tracks: Seq<ExportedTrack>) -> bool {
    &&& r.len() == tracks.len() + 1
    &&& r[0]@ == seq![
        SmfWriteEvent { delta: 0, kind: SmfWriteKind::Tempo(tempo_us) },
        SmfWriteEvent { delta: 0, kind: SmfWriteKind::EndOfTrack },
    ]
    &&& forall|i: int| 0 <= i < tracks.len() ==> is_named_track(#[trigger] r[i + 1]@, tracks[i].name@, tracks[i].events@)
}

impl ExportedMidi {
    /// The tracks of the file, as [`is_export_layout`] says.
    pub fn to_smf(self) -> (r: Vec<Vec<SmfWriteEvent>>)
        ensures
            is_export_layout(r@, self.tempo_us, self.tracks@),
    {
        let ghost tracks = self.tracks@;
        let mut out: Vec<Vec<SmfWriteEvent>> = Vec::new();
        out.push(build_conductor_track(self.tempo_us));
        for t in it: self.tracks.into_iter()
            invariant
                it.seq() == tracks,
                out@.len() == it.index() + 1,
                out@[0]@ == seq![
                    SmfWriteEvent { delta: 0, kind: SmfWriteKind::Tempo(self.tempo_us) },
                    SmfWriteEvent { delta: 0, kind: SmfWriteKind::EndOfTrack },
                ],
                forall|i: int| 0 <= i < it.index() ==> is_named_track(#[trigger] out@[i + 1]@, tracks[i].name@, tracks[i].events@),
        {
            let ExportedTrack { name, events } = t;
            out.push(build_named_track(name.as_str(), events));
        }
        out
    }

    /// The bytes of the file: format 1 at [`EXPORT_PPQ`] ticks per quarter
    /// note, with the tracks of [`Self::to_smf`], as midly writes them.
    pub fn to_bytes(self) -> (r: Result<Vec<u8>, String>)
        ensures
            exists|tracks: Seq<Vec<SmfWriteEvent>>| {
                &&& is_export_layout(tracks, self.tempo_us, self.tracks@)
                &&& match r {
                    Ok(b) => smf_written(SmfFormat::Parallel, EXPORT_PPQ, tracks) == Ok::<Seq<u8>, Seq<char>>(b@),
                    Err(e) => smf_written(SmfFormat::Parallel, EXPORT_PPQ, tracks) == Err::<Seq<u8>, Seq<char>>(e@),
                }
            },
    {
        let tracks = self.to_smf();
        smf_write(SmfFormat::Parallel, EXPORT_PPQ, &tracks)
    }
}

/// The single track of a one-fugue export: the tempo at tick zero before
/// the fugue's events, sorted and delta-encoded, then the end of track.
pub open spec fn is_single_fugue_track(r: Seq<SmfWriteEvent>, tempo_us: u32, events: Seq<(u32, SmfWriteKind)>) -> bool {
    &&& r.len() == events.len() + 2
    &&& r.subrange(0, r.len() - 1) == encoded_events(seq![(0u32, SmfWriteKind::Tempo(tempo_us))] + events)
    &&& r.last() == SmfWriteEvent { delta: 0, kind: SmfWriteKind::EndOfTrack }
}

/// The bytes of a one-fugue export: format 0 at [`EXPORT_PPQ`] ticks per
/// quarter note, one track as [`is_single_fugue_track`] says.
pub fn fugue_to_smf(tempo_us: u32, events: Vec<(u32, SmfWriteKind)>) -> (r: Result<Vec<u8>, String>)
    ensures
        exists|track: Vec<SmfWriteEvent>| {
            &&& is_single_fugue_track(track@, tempo_us, events@)
            &&& match r {
                Ok(b) => smf_written(SmfFormat::SingleTrack, EXPORT_PPQ, seq![track]) == Ok::<Seq<u8>, Seq<char>>(b@),
                Err(e) => smf_written(SmfFormat::SingleTrack, EXPORT_PPQ, seq![track]) == Err::<Seq<u8>, Seq<char>>(e@),
            }
        },
{
    let ghost input = events@;
    let mut all: Vec<(u32, SmfWriteKind)> = Vec::new();
    all.push((0, SmfWriteKind::Tempo(tempo_us)));
    let mut rest = events;
    all.append(&mut rest);
    let ghost all_in = all@;
    assert(all_in =~= seq![(0u32, SmfWriteKind::Tempo(tempo_us))] + input);
    proof {
        crate::sort::lemma_sort_by_tick_sorted(widen_ticks(all_in));
    }
    let mut track = encode_events(all);
    track.push(SmfWriteEvent { delta: 0, kind: SmfWriteKind::EndOfTrack });
    assert(track@.subrange(0, track@.len() - 1) =~= encoded_events(all_in));
    let mut tracks: Vec<Vec<SmfWriteEvent>> = Vec::new();
    tracks.push(track);
    assert(tracks@ =~= seq![tracks@[0]]);
    smf_write(SmfFormat::SingleTrack, EXPORT_PPQ, &tracks)
}

/// Sum of the deltas of the first `n` events of `e`.
pub open spec fn delta_sum(e: Seq<SmfWriteEvent>, n: int) -> int
    decreases n,
{
    if n <= 0 || n > e.len() {
        0
    } else {
        delta_sum(e, n - 1) + e[n - 1].delta
    }
}

proof fn lemma_delta_sums(s: Seq<(u64, SmfWriteKind)>, i: int)
    requires
        crate::sort::ticks_sorted(s),
        forall|j: int| 0 <= j < s.len() ==> s[j].0 <= u32::MAX,
        0 <= i < s.len(),
    ensures
        delta_sum(delta_encoded(s), i + 1) == s[i].0,
    decreases i,
{
    let e = delta_encoded(s);
    let prev: u64 = if i == 0 { 0 } else { s[i - 1].0 };
    assert(prev <= s[i].0);
    assert(tick_gap(s[i].0, prev) <= u32::MAX);
    assert(e[i].delta == tick_gap(s[i].0, prev));
    assert(e[i].delta == s[i].0 - prev);
    assert(delta_sum(e, i + 1) == delta_sum(e, i) + e[i].delta);
    if i > 0 {
        lemma_delta_sums(s, i - 1);
    }
}

/// Delta encoding keeps every tick: in the encoded body of a track, the
/// deltas up to and including event `i` add up to the tick of the `i`th
/// event in tick order, so a reader that sums deltas finds each event at
/// its tick.
pub proof fn lemma_encoded_ticks_recovered(events: Seq<(u32, SmfWriteKind)>, i: int)
    requires
        0 <= i < events.len(),
    ensures
        encoded_events(events).len() == events.len(),
        delta_sum(encoded_events(events), i + 1) == sort_by_tick(widen_ticks(events))[i].0,
{
    let w = widen_ticks(events);
    crate::sort::lemma_sort_by_tick_sorted(w);
    crate::sort::lemma_sort_by_tick_bounded(w, u32::MAX as u64);
    lemma_delta_sums(sort_by_tick(w), i);
}

/// Whether one of the id strings reads as `id` (as `str::parse::<u64>`
/// reads it).
pub open spec fn id_requested(ids: Seq<Seq<char>>, id: u64) -> bool {
    exists|i: int| 0 <= i < ids.len() && parse_unsigned(#[trigger] ids[i], u64::MAX as nat) == Some(id as nat)
}

/// The fugues to drag out: those whose id one of `ids` names, in their
/// order, when ids are given; all of them otherwise.
pub open spec fn selected_for_drag<P>(defs: Seq<FugueRecord<P>>, ids: Option<Seq<Seq<char>>>) -> Seq<FugueRecord<P>> {
    match ids {
        Some(ids) => defs.filter(|d: FugueRecord<P>| id_requested(ids, d.id)),
        None => defs,
    }
}

/// The fugues to drag out, as [`selected_for_drag`] says.
pub fn select_for_drag<P>(defs: Vec<FugueRecord<P>>, ids: Option<&Vec<String>>) -> (r: Vec<FugueRecord<P>>)
    ensures
        r@ == selected_for_drag(
            defs@,
            match ids {
                Some(v) => Some(Seq::new(v@.len(), |i: int| v@[i]@)),
                None => None,
            },
        ),
{
    let ids = match ids {
        None => {
            return defs;
        },
        Some(v) => v,
    };
    let ghost names = Seq::new(ids@.len(), |i: int| ids@[i]@);
    let mut wanted: Vec<u64> = Vec::new();
    let mut i: usize = 0;
    while i < ids.len()
        invariant
            i <= ids@.len(),
            names == Seq::new(ids@.len(), |i: int| ids@[i]@),
            forall|id: u64| wanted@.contains(id) <==> exists|j: int| 0 <= j < i && parse_unsigned(#[trigger] names[j], u64::MAX as nat) == Some(id as nat),
        decreases ids@.len() - i,
    {
        let cs = str_chars(ids[i].as_str());
        let parsed = parse_unsigned_chars(&cs, u64::MAX);
        let ghost before = wanted@;
        if let Some(v) = parsed {
            wanted.push(v);
        }
        proof {
            assert(names[i as int] == cs@);
            assert forall|id: u64| wanted@.contains(id) <==> exists|j: int| 0 <= j < i + 1 && parse_unsigned(#[trigger] names[j], u64::MAX as nat) == Some(id as nat) by {
                if wanted@.contains(id) {
                    if before.contains(id) {
                        let j = choose|j: int| 0 <= j < i && parse_unsigned(#[trigger] names[j], u64::MAX as nat) == Some(id as nat);
                        assert(0 <= j < i + 1);
                    } else {
                        let k = choose|k: int| 0 <= k < wanted@.len() && wanted@[k] == id;
                        if k < before.len() {
                            assert(before[k] == id);
                        }
                        assert(parse_unsigned(names[i as int], u64::MAX as nat) == Some(id as nat));
                    }
                }
                if exists|j: int| 0 <= j < i + 1 && parse_unsigned(#[trigger] names[j], u64::MAX as nat) == Some(id as nat) {
                    let j = choose|j: int| 0 <= j < i + 1 && parse_unsigned(#[trigger] names[j], u64::MAX as nat) == Some(id as nat);
                    if j < i {
                        assert(before.contains(id));
                        let k = choose|k: int| 0 <= k < before.len() && before[k] == id;
                        assert(wanted@[k] == id);
                    } else {
                        assert(parsed == Some(id));
                        assert(wanted@[wanted@.len() - 1] == id);
                    }
                }
            }
        }
        i = i + 1;
    }
    let ghost all = defs@;
    let ghost keep = |d: FugueRecord<P>| id_requested(names, d.id);
    let mut out: Vec<FugueRecord<P>> = Vec::new();
    for d in it: defs.into_iter()
        invariant
            it.seq() == all,
            keep == (|d: FugueRecord<P>| id_requested(names, d.id)),
            forall|id: u64| wanted@.contains(id) <==> id_requested(names, id),
            out@ == all.take(it.index() as int).filter(keep),
    {
        proof {
            assert(all.take(it.index() + 1).drop_last() =~= all.take(it.index() as int));
            reveal(Seq::filter);
            assert(all.take(it.index() + 1).last() == all[it.index() as int]);
        }
        let mut k: usize = 0;
        let mut hit = false;
        while k < wanted.len()
            invariant
                k <= wanted@.len(),
                hit == exists|m: int| 0 <= m < k && wanted@[m] == d.id,
            decreases wanted@.len() - k,
        {
            if wanted[k] == d.id {
                hit = true;
            }
            k = k + 1;
        }
        if hit {
            out.push(d);
        }
    }
    assert(all.take(all.len() as int) =~= all);
    out
}

} // verus!
