//! Where outputs go inside the output folder: the ignored, rejected and
//! approved roots, the approved chunk folders, the project metadata file,
//! and how the state of a line is read back from what exists there.
use vstd::prelude::*;
use crate::strings::{chars_of, views};
use crate::numbers::{decimal, parse_unsigned, parse_unsigned_range, push_decimal};
use crate::paths::join_part;
use crate::domain::AudioFileStatus;
use crate::order::{key_insert_position, lemma_insert_by_key, sort_by_key};

verus! {

pub const IGNORED_DIR_NAME: &'static str = "Ignorados";

pub const REJECTED_DIR_NAME: &'static str = "Reprovados";

pub const APPROVED_DIR_NAME: &'static str = "Aprovados";

pub const PROJECT_METADATA_FILE: &'static str = "nsg_dub_project.json";

/// The name of the approved folder for lines synthesized in `chunk_count`
/// requests (at least one).
pub open spec fn chunk_name(chunk_count: nat) -> Seq<char> {
    "Chunk "@ + decimal(if chunk_count == 0 {
        1
    } else {
        chunk_count
    })
}

pub open spec fn approved_path(output_dir: Seq<Seq<char>>, file_name: Seq<char>, chunk_count: nat) -> Seq<Seq<char>> {
    output_dir.push("Aprovados"@).push(chunk_name(chunk_count)).push(file_name)
}

/// The chunk count that an approved folder's name gives, if it is one.
pub open spec fn chunk_count_of(name: Seq<char>) -> Option<nat> {
    if "Chunk "@.is_prefix_of(name) {
        match parse_unsigned(name.skip(6), usize::MAX as nat) {
            Some(v) => if v > 0 {
                Some(v)
            } else {
                None
            },
            None => None,
        }
    } else {
        None
    }
}

pub fn ignored_dir(output_dir: &Vec<String>) -> (r: Vec<String>)
    ensures
        views(r@) == views(output_dir@).push("Ignorados"@),
{
    join_part(output_dir, IGNORED_DIR_NAME)
}

pub fn rejected_dir(output_dir: &Vec<String>) -> (r: Vec<String>)
    ensures
        views(r@) == views(output_dir@).push("Reprovados"@),
{
    join_part(output_dir, REJECTED_DIR_NAME)
}

pub fn approved_dir(output_dir: &Vec<String>) -> (r: Vec<String>)
    ensures
        views(r@) == views(output_dir@).push("Aprovados"@),
{
    join_part(output_dir, APPROVED_DIR_NAME)
}

/// `Chunk {n}`, with `n` at least one.
pub fn chunk_folder_name(chunk_count: usize) -> (r: String)
    ensures
        r@ == chunk_name(chunk_count as nat),
{
    let mut name = String::from_str("Chunk ");
    proof {
        reveal_strlit("Chunk ");
    }
    let count: usize = if chunk_count == 0 {
        1
    } else {
        chunk_count
    };
    push_decimal(&mut name, count as u64);
    name
}

/// The chunk count that an approved folder's name gives: `Chunk ` followed
/// by a positive number.
pub fn chunk_count_from_folder_name(folder_name: &str) -> (r: Option<usize>)
    ensures
        match chunk_count_of(folder_name@) {
            Some(v) => r == Some(v as usize),
            None => r is None,
        },
{
    let chars = chars_of(folder_name);
    let prefix = chars_of("Chunk ");
    proof {
        reveal_strlit("Chunk ");
    }
    if !crate::strings::has_prefix_at(&chars, 0, &prefix) {
        assert(!"Chunk "@.is_prefix_of(folder_name@)) by {
            if "Chunk "@.is_prefix_of(folder_name@) {
                assert(chars@.skip(0) == chars@);
            }
        }
        return None;
    }
    assert(chars@.skip(0) == chars@);
    assert(chars@.subrange(6, chars.len() as int) == folder_name@.skip(6));
    match parse_unsigned_range(&chars, 6, chars.len(), usize::MAX as u64) {
        Some(v) => {
            if v > 0 {
                Some(v as usize)
            } else {
                None
            }
        },
        None => None,
    }
}

pub fn approved_chunk_dir(output_dir: &Vec<String>, chunk_count: usize) -> (r: Vec<String>)
    ensures
        views(r@) == views(output_dir@).push("Aprovados"@).push(chunk_name(chunk_count as nat)),
{
    let root = approved_dir(output_dir);
    let name = chunk_folder_name(chunk_count);
    join_part(&root, name.as_str())
}

/// Where an approved dub of `file_name` goes: the chunk folder of its chunk
/// count under the approved root.
pub fn approved_output_path(output_dir: &Vec<String>, file_name: &str, chunk_count: usize) -> (r:
    Vec<String>)
    ensures
        views(r@) == approved_path(views(output_dir@), file_name@, chunk_count as nat),
{
    let folder = approved_chunk_dir(output_dir, chunk_count);
    join_part(&folder, file_name)
}

pub fn ignored_output_path(output_dir: &Vec<String>, file_name: &str) -> (r: Vec<String>)
    ensures
        views(r@) == views(output_dir@).push("Ignorados"@).push(file_name@),
{
    let folder = ignored_dir(output_dir);
    join_part(&folder, file_name)
}

pub fn rejected_output_path(output_dir: &Vec<String>, file_name: &str) -> (r: Vec<String>)
    ensures
        views(r@) == views(output_dir@).push("Reprovados"@).push(file_name@),
{
    let folder = rejected_dir(output_dir);
    join_part(&folder, file_name)
}

/// The project metadata file of an output folder.
pub fn metadata_path(output_dir: &Vec<String>) -> (r: Vec<String>)
    ensures
        views(r@) == views(output_dir@).push("nsg_dub_project.json"@),
{
    join_part(output_dir, PROJECT_METADATA_FILE)
}


/// Approved folders, with their chunk counts, in the order they were listed;
/// names that are no chunk folder are left out.
pub open spec fn chunk_folders(names: Seq<Seq<char>>) -> Seq<(usize, Seq<char>)>
    decreases names.len(),
{
    if names.len() == 0 {
        seq![]
    } else {
        match chunk_count_of(names.last()) {
            Some(v) => chunk_folders(names.drop_last()).push((v as usize, names.last())),
            None => chunk_folders(names.drop_last()),
        }
    }
}

/// The other approved folders' paths for the file, skipping the preferred one.
pub open spec fn other_candidates(
    folders: Seq<(usize, Seq<char>)>,
    output_dir: Seq<Seq<char>>,
    file_name: Seq<char>,
    preferred: Seq<Seq<char>>,
) -> Seq<Seq<Seq<char>>>
    decreases folders.len(),
{
    if folders.len() == 0 {
        seq![]
    } else {
        let path = output_dir.push("Aprovados"@).push(folders.last().1).push(file_name);
        let rest = other_candidates(folders.drop_last(), output_dir, file_name, preferred);
        if path == preferred {
            rest
        } else {
            rest.push(path)
        }
    }
}

/// Where an approved dub of the file may be: first the folder of its own
/// chunk count, then every other approved chunk folder by chunk count.
pub open spec fn candidate_paths(
    output_dir: Seq<Seq<char>>,
    file_name: Seq<char>,
    chunk_count: nat,
    folder_names: Seq<Seq<char>>,
) -> Seq<Seq<Seq<char>>> {
    let preferred = approved_path(output_dir, file_name, chunk_count);
    seq![preferred] + other_candidates(
        sort_by_key(chunk_folders(folder_names)),
        output_dir,
        file_name,
        preferred,
    )
}

pub open spec fn folder_views(v: Seq<(usize, String)>) -> Seq<(usize, Seq<char>)> {
    v.map_values(|p: (usize, String)| (p.0, p.1@))
}

pub open spec fn path_views(v: Seq<Vec<String>>) -> Seq<Seq<Seq<char>>> {
    v.map_values(|p: Vec<String>| views(p@))
}

/// The listed folder names that are approved chunk folders, ordered by chunk
/// count (stable).
pub fn sorted_chunk_folders(folder_names: &Vec<String>) -> (r: Vec<(usize, String)>)
    ensures
        folder_views(r@) == sort_by_key(chunk_folders(views(folder_names@))),
{
    let ghost nv = views(folder_names@);
    let mut sorted: Vec<(usize, String)> = Vec::new();
    let mut i: usize = 0;
    while i < folder_names.len()
        invariant
            i <= folder_names.len(),
            nv == views(folder_names@),
            folder_views(sorted@) == sort_by_key(chunk_folders(nv.take(i as int))),
        decreases folder_names.len() - i,
    {
        let ghost prefix = nv.take(i + 1);
        assert(prefix.drop_last() == nv.take(i as int));
        assert(prefix.last() == folder_names@[i as int]@);
        match chunk_count_from_folder_name(folder_names[i].as_str()) {
            Some(count) => {
                let ghost item = (count, folder_names@[i as int]@);
                let ghost folders = chunk_folders(prefix);
                assert(folders.drop_last() == chunk_folders(nv.take(i as int)));
                assert(folders.last() == item);
                let ghost before = folder_views(sorted@);
                let j = key_insert_position(&sorted, count);
                proof {
                    assert forall|k: int| 0 <= k < j implies before[k].0 <= item.0 by {
                        assert(before[k].0 == sorted@[k].0);
                    }
                    if j < sorted.len() {
                        assert(before[j as int].0 == sorted@[j as int].0);
                    }
                    lemma_insert_by_key(before, item, j as int);
                }
                let entry = (count, folder_names[i].clone());
                let ghost old_sorted = sorted@;
                sorted.insert(j, entry);
                assert(folder_views(sorted@) =~= folder_views(old_sorted).insert(j as int, item));
            },
            None => {},
        }
        i = i + 1;
    }
    assert(nv.take(folder_names.len() as int) == nv);
    sorted
}

/// The paths where an approved dub of the file may be, in the order they are
/// searched (see `candidate_paths`). `approved_folder_names` are the names of
/// the folders found under the approved root.
pub fn approved_output_candidates(
    output_dir: &Vec<String>,
    file_name: &str,
    chunk_count: usize,
    approved_folder_names: &Vec<String>,
) -> (r: Vec<Vec<String>>)
    ensures
        path_views(r@) == candidate_paths(
            views(output_dir@),
            file_name@,
            chunk_count as nat,
            views(approved_folder_names@),
        ),
{
    let ghost od = views(output_dir@);
    let preferred = approved_output_path(output_dir, file_name, chunk_count);
    let ghost pv = views(preferred@);
    let preferred_name = chunk_folder_name(chunk_count);
    let folders = sorted_chunk_folders(approved_folder_names);
    let ghost fv = folder_views(folders@);
    let root = approved_dir(output_dir);
    let mut others: Vec<Vec<String>> = Vec::new();
    let mut i: usize = 0;
    while i < folders.len()
        invariant
            i <= folders.len(),
            fv == folder_views(folders@),
            od == views(output_dir@),
            views(root@) == od.push("Aprovados"@),
            pv == approved_path(od, file_name@, chunk_count as nat),
            preferred_name@ == chunk_name(chunk_count as nat),
            path_views(others@) == other_candidates(fv.take(i as int), od, file_name@, pv),
        decreases folders.len() - i,
    {
        let ghost prefix = fv.take(i + 1);
        assert(prefix.drop_last() == fv.take(i as int));
        assert(prefix.last().1 == folders@[i as int].1@);
        let folder = join_part(&root, folders[i].1.as_str());
        let path = join_part(&folder, file_name);
        let ghost cand = od.push("Aprovados"@).push(folders@[i as int].1@).push(file_name@);
        assert(views(path@) == cand);
        let same = crate::strings::text_equals(folders[i].1.as_str(), preferred_name.as_str());
        proof {
            if cand == pv {
                assert(cand[od.len() + 1int] == pv[od.len() + 1int]);
            }
        }
        if !same {
            let ghost before = others@;
            others.push(path);
            assert(path_views(others@) =~= path_views(before).push(cand));
        }
        i = i + 1;
    }
    assert(fv.take(folders.len() as int) == fv);
    let mut r: Vec<Vec<String>> = Vec::new();
    r.push(preferred);
    let mut k: usize = 0;
    while k < others.len()
        invariant
            k <= others.len(),
            r.len() == k + 1,
            path_views(r@) == seq![pv] + path_views(others@).take(k as int),
        decreases others.len() - k,
    {
        let ghost before = r@;
        let item = crate::paths::copy_parts(&others[k]);
        r.push(item);
        assert(path_views(r@) =~= path_views(before).push(views(others@[k as int]@)));
        assert(path_views(others@).take(k + 1) =~= path_views(others@).take(k as int).push(
            views(others@[k as int]@),
        ));
        k = k + 1;
    }
    assert(path_views(others@).take(others.len() as int) == path_views(others@));
    r
}


/// What is known of a line's output: its state and, when there is one, the
/// file that shows it.
pub struct OutputArtifact {
    pub status: AudioFileStatus,
    pub path: Option<Vec<String>>,
}

impl OutputArtifact {
    pub fn pending() -> (r: Self)
        ensures
            r.status == AudioFileStatus::Pending,
            r.path is None,
    {
        OutputArtifact { status: AudioFileStatus::Pending, path: None }
    }
}

pub open spec fn probe_views(v: Seq<(AudioFileStatus, Vec<String>)>) -> Seq<(AudioFileStatus, Seq<Seq<char>>)> {
    v.map_values(|p: (AudioFileStatus, Vec<String>)| (p.0, views(p.1@)))
}

/// The places that tell a line's state, in the order they are checked: a
/// rejected copy, an ignored copy, then each approved candidate.
pub open spec fn artifact_probes(
    output_dir: Seq<Seq<char>>,
    file_name: Seq<char>,
    chunk_count: nat,
    folder_names: Seq<Seq<char>>,
) -> Seq<(AudioFileStatus, Seq<Seq<char>>)> {
    seq![
        (AudioFileStatus::Rejected, output_dir.push("Reprovados"@).push(file_name)),
        (AudioFileStatus::Ignored, output_dir.push("Ignorados"@).push(file_name)),
    ] + candidate_paths(output_dir, file_name, chunk_count, folder_names).map_values(
        |p: Seq<Seq<char>>| (AudioFileStatus::Dubbed, p),
    )
}

pub fn output_artifact_probes(
    output_dir: &Vec<String>,
    file_name: &str,
    chunk_count: usize,
    approved_folder_names: &Vec<String>,
) -> (r: Vec<(AudioFileStatus, Vec<String>)>)
    ensures
        probe_views(r@) == artifact_probes(
            views(output_dir@),
            file_name@,
            chunk_count as nat,
            views(approved_folder_names@),
        ),
{
    let candidates = approved_output_candidates(
        output_dir,
        file_name,
        chunk_count,
        approved_folder_names,
    );
    let ghost cv = path_views(candidates@);
    let mut r: Vec<(AudioFileStatus, Vec<String>)> = Vec::new();
    r.push((AudioFileStatus::Rejected, rejected_output_path(output_dir, file_name)));
    r.push((AudioFileStatus::Ignored, ignored_output_path(output_dir, file_name)));
    let ghost head = probe_views(r@);
    let mut i: usize = 0;
    while i < candidates.len()
        invariant
            i <= candidates.len(),
            cv == path_views(candidates@),
            probe_views(r@) == head + cv.take(i as int).map_values(
                |p: Seq<Seq<char>>| (AudioFileStatus::Dubbed, p),
            ),
        decreases candidates.len() - i,
    {
        let ghost before = r@;
        let item = crate::paths::copy_parts(&candidates[i]);
        r.push((AudioFileStatus::Dubbed, item));
        assert(probe_views(r@) =~= probe_views(before).push(
            (AudioFileStatus::Dubbed, cv[i as int]),
        ));
        assert(cv.take(i + 1).map_values(|p: Seq<Seq<char>>| (AudioFileStatus::Dubbed, p))
            =~= cv.take(i as int).map_values(|p: Seq<Seq<char>>| (AudioFileStatus::Dubbed, p)).push(
            (AudioFileStatus::Dubbed, cv[i as int]),
        ));
        i = i + 1;
    }
    assert(cv.take(candidates.len() as int) == cv);
    r
}

/// Index of the first place that exists.
pub open spec fn first_existing(exists: Seq<bool>) -> Option<int>
    decreases exists.len(),
{
    if exists.len() == 0 {
        None
    } else if exists[0] {
        Some(0)
    } else {
        match first_existing(exists.drop_first()) {
            Some(k) => Some(k + 1),
            None => None,
        }
    }
}

/// The state shown by the first place that exists (`exists[k]` says whether
/// `probes[k]` does), or pending when none does.
pub fn output_artifact_from_probes(
    probes: Vec<(AudioFileStatus, Vec<String>)>,
    exists: &Vec<bool>,
) -> (r: OutputArtifact)
    requires
        exists.len() == probes.len(),
    ensures
        match first_existing(exists@) {
            Some(k) => {
                &&& r.status == probes@[k].0
                &&& r.path matches Some(p) && views(p@) == views(probes@[k].1@)
            },
            None => r.status == AudioFileStatus::Pending && r.path is None,
        },
{
    let mut i: usize = 0;
    assert(exists@.skip(0) == exists@);
    while i < exists.len()
        invariant
            i <= exists.len(),
            exists.len() == probes.len(),
            first_existing(exists@) == (match first_existing(exists@.skip(i as int)) {
                Some(k) => Some(k + i),
                None => None,
            }),
        decreases exists.len() - i,
    {
        assert(exists@.skip(i as int)[0] == exists@[i as int]);
        assert(exists@.skip(i as int).drop_first() == exists@.skip(i + 1));
        if exists[i] {
            let status = probes[i].0;
            let path = crate::paths::copy_parts(&probes[i].1);
            return OutputArtifact { status, path: Some(path) };
        }
        i = i + 1;
    }
    OutputArtifact::pending()
}

/// The folder named for a chunk count is read back as that count (at least
/// one).
pub proof fn law_chunk_folder_round_trip(chunk_count: usize)
    ensures
        chunk_count_of(chunk_name(chunk_count as nat)) == Some(
            if chunk_count == 0 {
                1nat
            } else {
                chunk_count as nat
            },
        ),
{
    let n: nat = if chunk_count == 0 {
        1
    } else {
        chunk_count as nat
    };
    let name = chunk_name(chunk_count as nat);
    crate::numbers::law_decimal_round_trip(n, usize::MAX as nat);
    assert("Chunk "@.is_prefix_of(name)) by {
        reveal_strlit("Chunk ");
        assert(name.take(6) =~= "Chunk "@);
    }
    assert(name.skip(6) =~= decimal(n)) by {
        reveal_strlit("Chunk ");
    }
}

/// The rejected, ignored and approved places of a line are three different
/// files, each inside the output folder and named as the line.
pub proof fn law_output_places_are_distinct(
    output_dir: Seq<Seq<char>>,
    file_name: Seq<char>,
    chunk_count: nat,
)
    ensures
        ({
            let rejected = output_dir.push("Reprovados"@).push(file_name);
            let ignored = output_dir.push("Ignorados"@).push(file_name);
            let approved = approved_path(output_dir, file_name, chunk_count);
            &&& rejected != ignored
            &&& rejected != approved
            &&& ignored != approved
            &&& rejected.last() == file_name && ignored.last() == file_name && approved.last()
                == file_name
            &&& rejected.take(output_dir.len() as int) == output_dir
            &&& ignored.take(output_dir.len() as int) == output_dir
            &&& approved.take(output_dir.len() as int) == output_dir
        }),
{
    let k = output_dir.len() as int;
    let rejected = output_dir.push("Reprovados"@).push(file_name);
    let ignored = output_dir.push("Ignorados"@).push(file_name);
    let approved = approved_path(output_dir, file_name, chunk_count);
    reveal_strlit("Reprovados");
    reveal_strlit("Ignorados");
    reveal_strlit("Aprovados");
    assert(rejected[k] == "Reprovados"@);
    assert(ignored[k] == "Ignorados"@);
    assert(approved[k] == "Aprovados"@);
    assert("Reprovados"@ != "Ignorados"@) by {
        assert("Reprovados"@[0] != "Ignorados"@[0]);
    }
    assert("Reprovados"@ != "Aprovados"@) by {
        assert("Reprovados"@[0] != "Aprovados"@[0]);
    }
    assert("Ignorados"@ != "Aprovados"@) by {
        assert("Ignorados"@[0] != "Aprovados"@[0]);
    }
    assert(rejected.take(k) =~= output_dir);
    assert(ignored.take(k) =~= output_dir);
    assert(approved.take(k) =~= output_dir);
}

} // verus!
