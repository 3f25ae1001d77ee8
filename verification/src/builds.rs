//! The builds in the build cache: what is kept of a build, and what is copied when
//! it is wanted again.

use vstd::prelude::*;

use crate::artifact::{
    file_views, law_valid_paths_are_kept, validate_relative_path, validated, FileView,
    GeneratedFile,
};
use crate::audio::{order_at, Level, Order};
use crate::cache::{
    blob_place, entry_fault, is_key, key_of_path, path_key, restored_files, validate_key,
    BuildCache, CacheError, CacheFault, CacheHit,
};
use crate::path::{join_path, path_within};
use crate::runner::{name_place, replaces};
use crate::text::spelled;

verus! {

/// Where the build with a key is kept.
pub open spec fn entry_place(root: Seq<char>, key: Seq<char>) -> Seq<char> {
    path_within(path_within(root, "artifacts"@), key)
}

/// Where the files of the build with a key are kept.
pub open spec fn files_place(root: Seq<char>, key: Seq<char>) -> Seq<char> {
    path_within(entry_place(root, key), "files"@)
}

/// A file of a build that is to be kept: its path among the files of the build,
/// and where its contents are kept.
#[derive(Debug, Clone, PartialEq, Eq)]
pub struct KeptFile {
    pub path: String,
    pub blob: String,
}

/// A [`KeptFile`] as sequences of characters.
pub struct KeptView {
    pub path: Seq<char>,
    pub blob: Seq<char>,
}

impl View for KeptFile {
    type V = KeptView;

    open spec fn view(&self) -> KeptView {
        KeptView { path: self.path@, blob: self.blob@ }
    }
}

/// What a list of files stands for.
pub open spec fn kept_views(files: Seq<KeptFile>) -> Seq<KeptView> {
    files.map_values(|file: KeptFile| file@)
}

/// The first of the first files of a build whose path leads out of the output.
pub open spec fn store_fault(files: Seq<FileView>, count: int) -> Option<CacheFault>
    decreases count,
{
    if count <= 0 {
        None
    } else {
        match store_fault(files, count - 1) {
            Some(fault) => Some(fault),
            None => if validated(files[count - 1].path) is None {
                Some(CacheFault::InvalidEntry(files[count - 1].path))
            } else {
                None
            },
        }
    }
}

proof fn lemma_store_fault_stays(files: Seq<FileView>, count: int, end: int)
    requires
        0 <= count <= end,
        store_fault(files, count) is Some,
    ensures
        store_fault(files, end) == store_fault(files, count),
    decreases end - count,
{
    if count < end {
        lemma_store_fault_stays(files, count, end - 1);
    }
}

proof fn lemma_stored_paths_are_valid(files: Seq<FileView>, count: int, index: int)
    requires
        0 <= index < count,
        store_fault(files, count) is None,
    ensures
        validated(files[index].path) is Some,
    decreases count,
{
    if index < count - 1 {
        lemma_stored_paths_are_valid(files, count - 1, index);
    }
}

/// What is kept of the files of a build.
pub open spec fn kept_of(root: Seq<char>, files: Seq<FileView>) -> Seq<KeptView> {
    files.map_values(
        |file: FileView|
            KeptView { path: validated(file.path)->0, blob: blob_place(root, file.data) },
    )
}

/// What is to be kept of a build: nothing if it is there already.
pub open spec fn store_plan(
    root: Seq<char>,
    key: Seq<char>,
    complete: bool,
    files: Seq<FileView>,
) -> Result<Option<Seq<KeptView>>, CacheFault> {
    if !is_key(key) {
        Err(CacheFault::InvalidKey(key))
    } else if complete {
        Ok(None)
    } else {
        match store_fault(files, files.len() as int) {
            Some(fault) => Err(fault),
            None => Ok(Some(kept_of(root, files))),
        }
    }
}

/// A file that is to be copied out of the cache: where it is, its path within the
/// output, and where it goes.
#[derive(Debug, Clone, PartialEq, Eq)]
pub struct CopiedFile {
    pub source: String,
    pub path: String,
    pub destination: String,
}

/// A [`CopiedFile`] as sequences of characters.
pub struct CopiedView {
    pub source: Seq<char>,
    pub path: Seq<char>,
    pub destination: Seq<char>,
}

impl View for CopiedFile {
    type V = CopiedView;

    open spec fn view(&self) -> CopiedView {
        CopiedView {
            source: self.source@,
            path: self.path@,
            destination: self.destination@,
        }
    }
}

/// What is to be copied out of the cache for a build.
#[derive(Debug, Clone, PartialEq, Eq)]
pub struct RestorePlan {
    pub wad: String,
    pub files: Vec<CopiedFile>,
}

/// A [`RestorePlan`] as sequences of characters.
pub struct RestoreView {
    pub wad: Seq<char>,
    pub files: Seq<CopiedView>,
}

impl View for RestorePlan {
    type V = RestoreView;

    open spec fn view(&self) -> RestoreView {
        RestoreView { wad: self.wad@, files: copied_views(self.files@) }
    }
}

/// What a list of files stands for.
pub open spec fn copied_views(files: Seq<CopiedFile>) -> Seq<CopiedView> {
    files.map_values(|file: CopiedFile| file@)
}

/// The keys of the paths of names within a directory.
pub open spec fn keys_within(root: Seq<char>, names: Seq<Seq<char>>) -> Seq<Seq<char>> {
    names.map_values(|name: Seq<char>| key_of_path(path_within(root, name)))
}

/// The first names within a directory in the order of the keys of their paths.
pub open spec fn ordered(root: Seq<char>, names: Seq<Seq<char>>, count: int) -> Seq<Seq<char>>
    decreases count,
{
    if count <= 0 {
        seq![]
    } else {
        let list = ordered(root, names, count - 1);
        list.insert(
            name_place(
                keys_within(root, list),
                key_of_path(path_within(root, names[count - 1])),
                list.len() as int,
            ),
            names[count - 1],
        )
    }
}

/// A file in the cache and where it goes beside the data file.
pub open spec fn copied_of(root: Seq<char>, directory: Seq<char>, name: Seq<char>) -> CopiedView {
    CopiedView {
        source: path_within(root, name),
        path: validated(name)->0,
        destination: path_within(directory, validated(name)->0),
    }
}

/// What is to be copied out of the cache for a build, given whether it is there
/// and the names of its files: nothing if it is not there.
pub open spec fn restore_plan(
    root: Seq<char>,
    key: Seq<char>,
    present: bool,
    names: Seq<Seq<char>>,
    directory: Seq<char>,
    output_name: Seq<char>,
) -> Result<Option<RestoreView>, CacheFault> {
    let place = files_place(root, key);
    let sorted = ordered(place, names, names.len() as int);
    if !is_key(key) {
        Err(CacheFault::InvalidKey(key))
    } else if !present {
        Ok(None)
    } else {
        match entry_fault(sorted, place, output_name, sorted.len() as int) {
            Some(fault) => Err(fault),
            None => Ok(
                Some(
                    RestoreView {
                        wad: path_within(entry_place(root, key), "data.win"@),
                        files: sorted.map_values(
                            |name: Seq<char>| copied_of(place, directory, name),
                        ),
                    },
                ),
            ),
        }
    }
}

fn insert_name(root: &str, list: &mut Vec<String>, name: &str)
    ensures
        spelled(final(list)@) == spelled(old(list)@).insert(
            name_place(
                keys_within(root@, spelled(old(list)@)),
                key_of_path(path_within(root@, name@)),
                old(list)@.len() as int,
            ),
            name@,
        ),
{
    let path = join_path(root, name);
    let key = path_key(path.as_str());
    let ghost texts = spelled(list@);
    let ghost keys = keys_within(root@, texts);
    let mut place: usize = list.len();
    while place > 0
        invariant_except_break
            place <= list@.len(),
            keys.len() == list@.len(),
            texts == spelled(list@),
            keys == keys_within(root@, texts),
            list@ == old(list)@,
            name_place(keys, key@, keys.len() as int) == name_place(keys, key@, place as int),
        ensures
            place <= list@.len(),
            list@ == old(list)@,
            name_place(keys, key@, keys.len() as int) == place,
        decreases place,
    {
        let other_path = join_path(root, list[place - 1].as_str());
        let other = path_key(other_path.as_str());
        let order = order_at(Level::Bytes, other.as_str().as_bytes(), key.as_str().as_bytes());
        assert(texts[place - 1] == list@[place - 1]@);
        assert(keys[place - 1] == other@);
        if !matches!(order, Order::After) {
            break;
        }
        place -= 1;
    }
    list.insert(place, name.to_owned());
    assert(spelled(list@) =~= texts.insert(place as int, name@));
}

fn order_names(root: &str, names: &Vec<String>) -> (list: Vec<String>)
    ensures
        spelled(list@) == ordered(root@, spelled(names@), names@.len() as int),
{
    let ghost texts = spelled(names@);
    let mut list: Vec<String> = Vec::new();
    assert(spelled(list@) =~= seq![]);
    let mut index: usize = 0;
    while index < names.len()
        invariant
            index <= names@.len(),
            texts == spelled(names@),
            spelled(list@) == ordered(root@, texts, index as int),
        decreases names.len() - index,
    {
        assert(texts[index as int] == names@[index as int]@);
        assert(spelled(list@).len() == list@.len());
        insert_name(root, &mut list, names[index].as_str());
        index += 1;
    }
    list
}

impl BuildCache {
    /// Returns what is to be kept of a build, given whether it is there already:
    /// nothing if it is.
    pub fn store(&self, key: &str, complete: bool, files: &Vec<GeneratedFile>) -> (result: Result<
        Option<Vec<KeptFile>>,
        CacheError,
    >)
        ensures
            match (result, store_plan(self.root@, key@, complete, file_views(files@))) {
                (Ok(Some(kept)), Ok(Some(expected))) => kept_views(kept@) == expected,
                (Ok(None), Ok(None)) => true,
                (Err(error), Err(fault)) => error@ == fault,
                _ => false,
            },
    {
        validate_key(key)?;
        if complete {
            return Ok(None);
        }
        let ghost views = file_views(files@);
        let ghost expected = kept_of(self.root@, views);
        let mut kept: Vec<KeptFile> = Vec::new();
        let mut index: usize = 0;
        assert(kept_views(kept@) =~= expected.take(0));
        while index < files.len()
            invariant
                index <= files@.len(),
                is_key(key@),
                !complete,
                views == file_views(files@),
                expected == kept_of(self.root@, views),
                store_fault(views, index as int) is None,
                kept_views(kept@) == expected.take(index as int),
            decreases files.len() - index,
        {
            let file = &files[index];
            assert(views[index as int] == file@);
            match validate_relative_path(file.path.as_str()) {
                Ok(path) => {
                    let blob = self.blob_path(file.data.as_slice());
                    let ghost before = kept_views(kept@);
                    let one = KeptFile { path, blob };
                    assert(one@ == expected[index as int]);
                    kept.push(one);
                    assert(kept_views(kept@) =~= before.push(one@));
                    assert(kept_views(kept@) =~= expected.take(index + 1));
                },
                Err(_) => {
                    proof {
                        lemma_store_fault_stays(views, index + 1, views.len() as int);
                    }
                    return Err(CacheError::InvalidEntry(file.path.clone()));
                },
            }
            index += 1;
        }
        assert(expected.take(views.len() as int) =~= expected);
        Ok(Some(kept))
    }

    /// Returns what is to be copied out of the cache for a build, given whether it
    /// is there and the names of its files: nothing if it is not there.
    pub fn restore(
        &self,
        key: &str,
        present: bool,
        names: &Vec<String>,
        directory: &str,
        output_name: &str,
    ) -> (result: Result<Option<RestorePlan>, CacheError>)
        ensures
            match (
                result,
                restore_plan(
                    self.root@,
                    key@,
                    present,
                    spelled(names@),
                    directory@,
                    output_name@,
                ),
            ) {
                (Ok(Some(plan)), Ok(Some(expected))) => plan@ == expected,
                (Ok(None), Ok(None)) => true,
                (Err(error), Err(fault)) => error@ == fault,
                _ => false,
            },
    {
        validate_key(key)?;
        if !present {
            return Ok(None);
        }
        let entry = self.entry(key);
        let root = join_path(entry.as_str(), "files");
        let sorted = order_names(root.as_str(), names);
        let ghost texts = spelled(sorted@);
        let ghost place = files_place(self.root@, key@);
        let ghost expected = texts.map_values(
            |name: Seq<char>| copied_of(place, directory@, name),
        );
        let paths = match restored_files(&sorted, root.as_str(), output_name) {
            Ok(paths) => paths,
            Err(error) => {
                return Err(error);
            },
        };
        let mut files: Vec<CopiedFile> = Vec::new();
        let mut index: usize = 0;
        assert(copied_views(files@) =~= expected.take(0));
        assert(spelled(paths@).len() == paths@.len());
        while index < paths.len()
            invariant
                index <= paths@.len(),
                paths@.len() == sorted@.len(),
                texts == spelled(sorted@),
                spelled(paths@) == texts.map_values(|name: Seq<char>| validated(name)->0),
                root@ == place,
                expected == texts.map_values(
                    |name: Seq<char>| copied_of(place, directory@, name),
                ),
                copied_views(files@) == expected.take(index as int),
            decreases paths.len() - index,
        {
            let name = sorted[index].as_str();
            let path = paths[index].clone();
            assert(texts[index as int] == name@);
            assert(spelled(paths@)[index as int] == path@);
            let source = join_path(root.as_str(), name);
            let destination = join_path(directory, path.as_str());
            let ghost before = copied_views(files@);
            let one = CopiedFile { source, path, destination };
            assert(one@ == expected[index as int]);
            files.push(one);
            assert(copied_views(files@) =~= before.push(one@));
            assert(copied_views(files@) =~= expected.take(index + 1));
            index += 1;
        }
        assert(expected.take(texts.len() as int) =~= expected);
        Ok(Some(RestorePlan { wad: join_path(entry.as_str(), "data.win"), files }))
    }
}

impl RestorePlan {
    /// Returns what is said of a build that was in the cache, given its key and
    /// the size of its data file.
    pub fn hit(&self, key: &str, wad_bytes: u64) -> (hit: CacheHit)
        ensures
            hit.key@ == key@,
            hit.wad_bytes == wad_bytes,
            hit.external_files == self@.files.len(),
    {
        CacheHit { key: key.to_owned(), wad_bytes, external_files: self.files.len() }
    }
}

proof fn lemma_place_is_inside(keys: Seq<Seq<char>>, key: Seq<char>, end: int)
    requires
        0 <= end,
    ensures
        0 <= name_place(keys, key, end) <= end,
    decreases end,
{
    if end > 0 {
        lemma_place_is_inside(keys, key, end - 1);
    }
}

proof fn lemma_ordered_names(root: Seq<char>, names: Seq<Seq<char>>, count: int)
    requires
        0 <= count <= names.len(),
    ensures
        ordered(root, names, count).to_multiset() == names.take(count).to_multiset(),
        ordered(root, names, count).len() == count,
        forall|k: int|
            0 <= k < count ==> names.contains(#[trigger] ordered(root, names, count)[k]),
    decreases count,
{
    let now = ordered(root, names, count);
    if count > 0 {
        let list = ordered(root, names, count - 1);
        let name = names[count - 1];
        let key = key_of_path(path_within(root, name));
        let place = name_place(keys_within(root, list), key, list.len() as int);
        lemma_ordered_names(root, names, count - 1);
        lemma_place_is_inside(keys_within(root, list), key, list.len() as int);
        assert(names.take(count) =~= names.take(count - 1).push(name));
        vstd::seq_lib::to_multiset_insert(list, place, name);
        vstd::seq_lib::to_multiset_build(names.take(count - 1), name);
        assert forall|k: int| 0 <= k < count implies names.contains(#[trigger] now[k]) by {
            if k < place {
                assert(now[k] == list[k]);
            } else if k > place {
                assert(now[k] == list[k - 1]);
            } else {
                assert(now[k] == names[count - 1]);
            }
        }
    } else {
        assert(names.take(0) =~= now);
    }
}

proof fn lemma_names_are_in_order(
    names: Seq<Seq<char>>,
    root: Seq<char>,
    output_name: Seq<char>,
    count: int,
)
    requires
        0 <= count <= names.len(),
        forall|k: int|
            0 <= k < names.len() ==> validated(#[trigger] names[k]) == Some(names[k]) && !replaces(
                names[k],
                output_name,
            ),
    ensures
        entry_fault(names, root, output_name, count) is None,
    decreases count,
{
    if count > 0 {
        lemma_names_are_in_order(names, root, output_name, count - 1);
        assert(validated(names[count - 1]) == Some(names[count - 1]));
    }
}

/// Whether a name is that of one of the files that are kept.
pub open spec fn is_kept(kept: Seq<KeptView>, name: Seq<char>) -> bool {
    exists|k: int| 0 <= k < kept.len() && (#[trigger] kept[k]).path == name
}

/// The files that were kept of a build are all copied, each from where it is kept
/// to the place beside the data file that the build gave it, in whatever order
/// they are found.
pub proof fn law_kept_files_are_restored(
    root: Seq<char>,
    key: Seq<char>,
    files: Seq<FileView>,
    names: Seq<Seq<char>>,
    directory: Seq<char>,
    output_name: Seq<char>,
)
    requires
        store_plan(root, key, false, files) is Ok,
        forall|k: int|
            0 <= k < names.len() ==> is_kept(kept_of(root, files), #[trigger] names[k]) && !replaces(
                names[k],
                output_name,
            ),
    ensures
        restore_plan(root, key, true, names, directory, output_name) matches Ok(Some(plan)) && {
            let sorted = ordered(files_place(root, key), names, names.len() as int);
            &&& sorted.to_multiset() == names.to_multiset()
            &&& plan.files.len() == sorted.len()
            &&& forall|k: int|
                0 <= k < sorted.len() ==> #[trigger] plan.files[k] == (CopiedView {
                    source: path_within(files_place(root, key), sorted[k]),
                    path: sorted[k],
                    destination: path_within(directory, sorted[k]),
                })
        },
{
    let place = files_place(root, key);
    let kept = kept_of(root, files);
    let sorted = ordered(place, names, names.len() as int);
    lemma_ordered_names(place, names, names.len() as int);
    assert(names.take(names.len() as int) =~= names);
    assert forall|k: int| 0 <= k < sorted.len() implies validated(#[trigger] sorted[k]) == Some(
        sorted[k],
    ) && !replaces(sorted[k], output_name) by {
        let at = choose|at: int| 0 <= at < names.len() && names[at] == sorted[k];
        assert(is_kept(kept, names[at]));
        let file = choose|file: int| 0 <= file < kept.len() && (#[trigger] kept[file]).path
            == names[at];
        lemma_stored_paths_are_valid(files, files.len() as int, file);
        law_valid_paths_are_kept(files[file].path);
    }
    lemma_names_are_in_order(sorted, place, output_name, sorted.len() as int);
}

/// The paths within the output that a build gives its files.
pub open spec fn paths_of(files: Seq<FileView>) -> Seq<Seq<char>> {
    files.map_values(|file: FileView| validated(file.path)->0)
}

/// What the directory of a kept build holds, by paths, once its first files are
/// kept.
pub open spec fn kept_contents(files: Seq<FileView>, count: int) -> Map<Seq<char>, Seq<u8>>
    decreases count,
{
    if count <= 0 {
        Map::empty()
    } else {
        kept_contents(files, count - 1).insert(
            validated(files[count - 1].path)->0,
            files[count - 1].data,
        )
    }
}

/// What the output holds, by paths, once the first files of a plan are copied from
/// the directory of a kept build.
pub open spec fn copied_contents(
    files: Seq<CopiedView>,
    kept: Map<Seq<char>, Seq<u8>>,
    count: int,
) -> Map<Seq<char>, Seq<u8>>
    decreases count,
{
    if count <= 0 {
        Map::empty()
    } else {
        copied_contents(files, kept, count - 1).insert(
            files[count - 1].path,
            kept[files[count - 1].path],
        )
    }
}

proof fn lemma_kept_contents(files: Seq<FileView>, count: int)
    requires
        0 <= count <= files.len(),
        paths_of(files).no_duplicates(),
    ensures
        forall|path: Seq<char>|
            kept_contents(files, count).contains_key(path) <==> paths_of(files).take(
                count,
            ).contains(path),
        forall|k: int|
            0 <= k < count ==> #[trigger] kept_contents(files, count)[paths_of(files)[k]]
                == files[k].data,
    decreases count,
{
    let paths = paths_of(files);
    if count > 0 {
        lemma_kept_contents(files, count - 1);
        let before = kept_contents(files, count - 1);
        let now = kept_contents(files, count);
        let last = paths[count - 1];
        assert(now == before.insert(last, files[count - 1].data));
        assert(paths.take(count) =~= paths.take(count - 1).push(last));
        assert forall|path: Seq<char>| now.contains_key(path) implies paths.take(count).contains(
            path,
        ) by {
            if path == last {
                assert(paths.take(count)[count - 1] == path);
            } else {
                let first = paths.take(count - 1);
                let k = choose|k: int| 0 <= k < first.len() && first[k] == path;
                assert(paths.take(count)[k] == path);
            }
        }
        assert forall|path: Seq<char>| paths.take(count).contains(path) implies now.contains_key(
            path,
        ) by {
            let all = paths.take(count);
            let k = choose|k: int| 0 <= k < all.len() && all[k] == path;
            if k < count - 1 {
                assert(paths.take(count - 1)[k] == path);
            }
        }
        assert forall|k: int| 0 <= k < count implies #[trigger] now[paths[k]] == files[k].data by {
            if k < count - 1 {
                assert(paths[k] != paths[count - 1]);
                assert(before[paths[k]] == files[k].data);
            }
        }
    } else {
        assert(paths.take(0) =~= seq![]);
    }
}

proof fn lemma_copied_contents(
    files: Seq<CopiedView>,
    kept: Map<Seq<char>, Seq<u8>>,
    count: int,
    path: Seq<char>,
)
    requires
        0 <= count <= files.len(),
        exists|k: int| 0 <= k < count && (#[trigger] files[k]).path == path,
    ensures
        copied_contents(files, kept, count).contains_key(path),
        copied_contents(files, kept, count)[path] == kept[path],
    decreases count,
{
    let k = choose|k: int| 0 <= k < count && (#[trigger] files[k]).path == path;
    if k < count - 1 && files[count - 1].path != path {
        assert(files[k].path == path);
        lemma_copied_contents(files, kept, count - 1, path);
    }
}

/// A build that is kept is given back: however its files are listed, each of them
/// is copied to where the build put it, with the contents that it had, and there
/// are as many of them.
pub proof fn law_kept_build_is_given_back(
    root: Seq<char>,
    key: Seq<char>,
    files: Seq<FileView>,
    names: Seq<Seq<char>>,
    directory: Seq<char>,
    output_name: Seq<char>,
)
    requires
        store_plan(root, key, false, files) is Ok,
        paths_of(files).no_duplicates(),
        forall|k: int|
            0 <= k < files.len() ==> !replaces(#[trigger] paths_of(files)[k], output_name),
        names.no_duplicates(),
        names.to_set() == kept_contents(files, files.len() as int).dom(),
    ensures
        restore_plan(root, key, true, names, directory, output_name) matches Ok(Some(plan)) && {
            let kept = kept_contents(files, files.len() as int);
            let copied = copied_contents(plan.files, kept, plan.files.len() as int);
            &&& plan.wad == path_within(entry_place(root, key), "data.win"@)
            &&& plan.files.len() == files.len()
            &&& forall|k: int|
                0 <= k < plan.files.len() ==> (#[trigger] plan.files[k]).source == path_within(
                    files_place(root, key),
                    plan.files[k].path,
                ) && plan.files[k].destination == path_within(directory, plan.files[k].path)
            &&& forall|k: int|
                0 <= k < files.len() ==> copied.contains_key(#[trigger] paths_of(files)[k])
                    && copied[paths_of(files)[k]] == files[k].data
        },
{
    let paths = paths_of(files);
    let kept = kept_contents(files, files.len() as int);
    let views = kept_of(root, files);
    lemma_kept_contents(files, files.len() as int);
    assert(paths.take(files.len() as int) =~= paths);
    assert forall|k: int| 0 <= k < names.len() implies is_kept(views, #[trigger] names[k])
        && !replaces(names[k], output_name) by {
        assert(names.to_set().contains(names[k]));
        let at = choose|at: int| 0 <= at < paths.len() && paths[at] == names[k];
        assert(views[at].path == names[k]);
    }
    law_kept_files_are_restored(root, key, files, names, directory, output_name);
    let sorted = ordered(files_place(root, key), names, names.len() as int);
    let plan = restore_plan(root, key, true, names, directory, output_name)->Ok_0->0;
    let copied = copied_contents(plan.files, kept, plan.files.len() as int);
    lemma_ordered_names(files_place(root, key), names, names.len() as int);
    assert(plan.files.len() == names.len());
    assert(names.to_set() =~= paths.to_set()) by {
        assert forall|path: Seq<char>| names.to_set().contains(path) == paths.to_set().contains(
            path,
        ) by {
            assert(kept.contains_key(path) == paths.contains(path));
        }
    }
    names.unique_seq_to_set();
    paths.unique_seq_to_set();
    assert forall|k: int| 0 <= k < files.len() implies copied.contains_key(#[trigger] paths[k])
        && copied[paths[k]] == files[k].data by {
        assert(paths.to_set().contains(paths[k]));
        assert(names.contains(paths[k]));
        broadcast use vstd::seq_lib::group_to_multiset_ensures;

        assert(names.to_multiset().count(paths[k]) > 0);
        assert(sorted.contains(paths[k]));
        let at = choose|at: int| 0 <= at < sorted.len() && sorted[at] == paths[k];
        assert(plan.files[at].path == paths[k]);
        lemma_copied_contents(plan.files, kept, plan.files.len() as int, paths[k]);
    }
}

} // verus!
