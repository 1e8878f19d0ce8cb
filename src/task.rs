//! One archive's task: where it is fetched from and stored, and which stage
//! follows which, given how the last one ended.

use vstd::prelude::*;
use crate::html::opt_view;
use crate::lemma::{chars_of, split_chars, split_on, string_of};

verus! {

/// Where archives are fetched from; an archive's name is appended.
pub const ARCHIVE_BASE_URL: &'static str = "https://data.commoncrawl.org/";

/// The directory downloaded archives are kept in while processed.
pub const LOCAL_ARCHIVE_DIR: &'static str = "warc_files/";

/// The address an archive is downloaded from.
pub fn archive_url(name: &str) -> (r: String)
    ensures
        r@ == ARCHIVE_BASE_URL@ + name@,
{
    let mut r = ARCHIVE_BASE_URL.to_owned();
    r.append(name);
    r
}

/// The last of `parts` that is neither empty nor `.`.
pub open spec fn last_named_part(parts: Seq<Seq<char>>) -> Option<Seq<char>>
    decreases parts.len(),
{
    if parts.len() == 0 {
        None
    } else if parts.last().len() == 0 || parts.last() == "."@ {
        last_named_part(parts.drop_last())
    } else {
        Some(parts.last())
    }
}

/// The file name of `path` as std's `Path::file_name` gives it: its last
/// `/`-separated part, trailing empty and `.` parts skipped, unless that is
/// `..` or there is none.
pub open spec fn file_name_of(path: Seq<char>) -> Option<Seq<char>> {
    match last_named_part(split_on(path, '/')) {
        Some(last) => if last == ".."@ {
            None
        } else {
            Some(last)
        },
        None => None,
    }
}

/// The index of the last `.` in `name`, or -1.
pub open spec fn last_dot(name: Seq<char>) -> int
    decreases name.len(),
{
    if name.len() == 0 {
        -1
    } else if name.last() == '.' {
        name.len() - 1
    } else {
        last_dot(name.drop_last())
    }
}

/// `name` without its extension: the text before its last `.`, unless that
/// `.` is its first character or there is none.
pub open spec fn stem_of(name: Seq<char>) -> Seq<char> {
    if last_dot(name) > 0 {
        name.subrange(0, last_dot(name))
    } else {
        name
    }
}

/// Where the archive `name` is stored: its file name in
/// `LOCAL_ARCHIVE_DIR`, with the extension `gz` in place of its own.
pub open spec fn local_path_of(name: Seq<char>) -> Option<Seq<char>> {
    match file_name_of(name) {
        Some(f) => Some(LOCAL_ARCHIVE_DIR@ + stem_of(f) + ".gz"@),
        None => None,
    }
}

proof fn lemma_last_dot_range(name: Seq<char>)
    ensures
        -1 <= last_dot(name) < name.len(),
        last_dot(name) >= 0 ==> name[last_dot(name)] == '.',
        forall|k: int| last_dot(name) < k < name.len() ==> name[k] != '.',
    decreases name.len(),
{
    if name.len() > 0 && name.last() != '.' {
        lemma_last_dot_range(name.drop_last());
        assert forall|k: int| last_dot(name) < k < name.len() implies name[k] != '.' by {
            if k < name.len() - 1 {
                assert(name.drop_last()[k] == name[k]);
            }
        }
    }
}

/// The local path of an archive; `None` when its name has no file name.
pub fn local_archive_path(name: &str) -> (r: Option<String>)
    ensures
        opt_view(r) == local_path_of(name@),
{
    let parts = split_chars(&chars_of(name), '/');
    proof {
        crate::lemma::lemma_split_on_nonempty(name@, '/');
        reveal_strlit(".");
        reveal_strlit("..");
    }
    let ghost ps = split_on(name@, '/');
    let mut j: usize = parts.len();
    assert(ps.subrange(0, j as int) =~= ps);
    while j > 0 && (parts[j - 1].len() == 0 || (parts[j - 1].len() == 1 && parts[j - 1][0] == '.'))
        invariant
            j <= parts@.len(),
            parts@.map_values(|p: Vec<char>| p@) == ps,
            last_named_part(ps) == last_named_part(ps.subrange(0, j as int)),
        decreases j,
    {
        let ghost pre = ps.subrange(0, j as int);
        assert(pre.drop_last() =~= ps.subrange(0, j - 1));
        assert(pre.last() == parts@[j - 1]@);
        if parts[j - 1].len() == 1 {
            proof {
                reveal_strlit(".");
            }
            assert(parts@[j - 1]@ =~= "."@);
        }
        j = j - 1;
    }
    if j == 0 {
        assert(ps.subrange(0, 0) =~= Seq::<Seq<char>>::empty());
        return None;
    }
    let last = &parts[j - 1];
    proof {
        reveal_strlit(".");
        reveal_strlit("..");
    }
    assert(last@ == ps.subrange(0, j as int).last());
    assert(last_named_part(ps) == Some(last@)) by {
        if last@ == "."@ {
            assert(last@.len() == 1);
        }
    }
    if last.len() == 2 && last[0] == '.' && last[1] == '.' {
        assert(last@ =~= ".."@);
        return None;
    }
    assert(last@ != ".."@) by {
        if last@ == ".."@ {
            assert(last@.len() == 2);
        }
    }
    let mut dot: usize = last.len();
    let mut k: usize = last.len();
    proof {
        lemma_last_dot_range(last@);
    }
    while k > 0
        invariant
            k <= last@.len(),
            dot <= last@.len(),
            dot == last@.len() ==> forall|j: int| k <= j < last@.len() ==> last@[j] != '.',
            dot < last@.len() ==> dot == last_dot(last@),
            -1 <= last_dot(last@) < last@.len(),
            last_dot(last@) >= 0 ==> last@[last_dot(last@)] == '.',
            forall|j: int| last_dot(last@) < j < last@.len() ==> last@[j] != '.',
        decreases k,
    {
        k = k - 1;
        if dot == last.len() && last[k] == '.' {
            dot = k;
        }
    }
    let mut stem: Vec<char> = Vec::new();
    let end: usize = if dot < last.len() && dot > 0 {
        dot
    } else {
        last.len()
    };
    assert(dot == last@.len() ==> last_dot(last@) == -1);
    let mut i: usize = 0;
    while i < end
        invariant
            end <= last@.len(),
            i <= end,
            stem@ == last@.subrange(0, i as int),
        decreases end - i,
    {
        stem.push(last[i]);
        i = i + 1;
        assert(stem@ =~= last@.subrange(0, i as int));
    }
    assert(last@.subrange(0, last@.len() as int) =~= last@);
    if dot < last.len() && dot > 0 {
        assert(stem@ =~= stem_of(last@));
    } else {
        assert(last_dot(last@) <= 0);
        assert(end == last@.len());
        assert(stem@ =~= last@);
        assert(stem_of(last@) == last@);
    }
    let mut r = LOCAL_ARCHIVE_DIR.to_owned();
    r.append(string_of(stem.as_slice()).as_str());
    r.append(".gz");
    Some(r)
}

/// The stages of an archive's task.
#[derive(Clone, Copy, Debug, PartialEq, Eq, Structural)]
pub enum ArchiveStep {
    Download,
    Read,
    Persist,
    MarkProcessed,
    DeleteLocalFile,
    Done,
    Failed,
}

/// The stage after `step`, which succeeded or not. A failed download, read
/// or persist ends the task unmarked, so the archive is retried on the next
/// run; once persisted, the archive is marked and its local file deleted
/// whatever came of the marking, and the task ends whatever came of the
/// deletion.
pub fn next_step(step: ArchiveStep, succeeded: bool) -> (r: ArchiveStep)
    ensures
        step == ArchiveStep::Download ==> r == if succeeded { ArchiveStep::Read } else { ArchiveStep::Failed },
        step == ArchiveStep::Read ==> r == if succeeded { ArchiveStep::Persist } else { ArchiveStep::Failed },
        step == ArchiveStep::Persist ==> r == if succeeded { ArchiveStep::MarkProcessed } else { ArchiveStep::Failed },
        step == ArchiveStep::MarkProcessed ==> r == ArchiveStep::DeleteLocalFile,
        step == ArchiveStep::DeleteLocalFile ==> r == ArchiveStep::Done,
        step == ArchiveStep::Done ==> r == ArchiveStep::Done,
        step == ArchiveStep::Failed ==> r == ArchiveStep::Failed,
{
    match step {
        ArchiveStep::Download => if succeeded {
            ArchiveStep::Read
        } else {
            ArchiveStep::Failed
        },
        ArchiveStep::Read => if succeeded {
            ArchiveStep::Persist
        } else {
            ArchiveStep::Failed
        },
        ArchiveStep::Persist => if succeeded {
            ArchiveStep::MarkProcessed
        } else {
            ArchiveStep::Failed
        },
        ArchiveStep::MarkProcessed => ArchiveStep::DeleteLocalFile,
        ArchiveStep::DeleteLocalFile => ArchiveStep::Done,
        ArchiveStep::Done => ArchiveStep::Done,
        ArchiveStep::Failed => ArchiveStep::Failed,
    }
}

} // verus!
