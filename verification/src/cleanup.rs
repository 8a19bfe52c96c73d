//! The cleaning of the media directory: what has expired, and what must go to
//! make the rest fit.
use vstd::prelude::*;

use crate::paths;
use crate::text;

verus! {

/// Whether a path names completed media: an `.m4a` file that is not one being
/// downloaded.
pub open spec fn names_completed_media(path: Seq<char>) -> bool {
    match paths::file_name_of(path) {
        Some(name) => text::ends_with(name, ".m4a"@) && !text::ends_with(name, ".download.m4a"@),
        None => false,
    }
}

/// Whether a path names completed media.
pub fn is_completed_media_file(path: &str) -> (yes: bool)
    ensures
        yes == names_completed_media(path@),
{
    match paths::file_name(path) {
        Some(name) => text::has_tail(name.as_str(), ".m4a") && !text::has_tail(
            name.as_str(),
            ".download.m4a",
        ),
        None => false,
    }
}

/// The nanoseconds between two points in time; none where the first is not
/// before the second.
pub open spec fn age(modified: int, now: int) -> int {
    if now >= modified {
        now - modified
    } else {
        0
    }
}

/// Whether a file that was modified at `modified` is older than `ttl`
/// nanoseconds at `now`.
fn older_than(modified: i128, now: i128, ttl: u128) -> (yes: bool)
    ensures
        yes == (age(modified as int, now as int) > ttl),
{
    if now < modified {
        return false;
    }
    let nanos: u128 = if modified >= 0 || now < 0 {
        (now - modified) as u128
    } else {
        now as u128 + (-(modified + 1)) as u128 + 1
    };
    nanos > ttl
}

/// What is known of a file. Times are nanoseconds since the start of 1970.
#[derive(Debug, Clone, Copy, PartialEq, Eq, Structural)]
pub struct FileFacts {
    pub is_file: bool,
    pub modified: Option<i128>,
    pub bytes: u64,
}

/// Whether cached media may still be served: it is a file, and not older than
/// `ttl` nanoseconds at `now`. A file from the future may not.
pub open spec fn may_be_served(facts: Option<FileFacts>, now: int, ttl: Option<u128>) -> bool {
    match facts {
        Some(file) => file.is_file && match ttl {
            Some(limit) => match file.modified {
                Some(modified) => modified <= now && now - modified <= limit,
                None => false,
            },
            None => true,
        },
        None => false,
    }
}

/// Whether cached media may still be served.
pub fn is_fresh(facts: Option<FileFacts>, now: i128, ttl: Option<u128>) -> (yes: bool)
    ensures
        yes == may_be_served(facts, now as int, ttl),
{
    match facts {
        Some(file) => {
            if !file.is_file {
                return false;
            }
            match ttl {
                Some(limit) => match file.modified {
                    Some(modified) => modified <= now && !older_than(modified, now, limit),
                    None => false,
                },
                None => true,
            }
        },
        None => false,
    }
}

/// Completed media that a pass has seen and kept.
#[derive(Debug, PartialEq, Eq)]
pub struct CachedMediaFile {
    pub path: String,
    pub modified: i128,
    pub bytes: u64,
}

/// What is to be done with a file in the media directory.
#[derive(Debug, Clone, Copy, PartialEq, Eq, Structural)]
pub enum Observation {
    /// It is no completed media: it is left alone and not counted.
    Skip,
    /// It has expired.
    Remove,
    /// It is kept, and counted.
    Keep,
}

/// When a file counts as modified: one that does not say was at the start of
/// 1970.
pub open spec fn modified_at(facts: FileFacts) -> i128 {
    match facts.modified {
        Some(modified) => modified,
        None => 0,
    }
}

/// What is to be done with a file.
pub open spec fn observation(
    path: Seq<char>,
    facts: FileFacts,
    now: int,
    ttl: Option<u128>,
) -> Observation {
    if !facts.is_file || !names_completed_media(path) {
        Observation::Skip
    } else {
        match ttl {
            Some(limit) => if age(modified_at(facts) as int, now) > limit {
                Observation::Remove
            } else {
                Observation::Keep
            },
            None => Observation::Keep,
        }
    }
}

/// One pass over the media directory.
pub struct CleanupPass {
    ttl: Option<u128>,
    files: Vec<CachedMediaFile>,
}

/// What the removal of files leaves to be told of one: its path, when it was
/// modified, its size.
pub struct FileView {
    pub path: Seq<char>,
    pub modified: int,
    pub bytes: nat,
}

/// What files are, one by one.
pub open spec fn files_view(files: Seq<CachedMediaFile>) -> Seq<FileView> {
    files.map_values(
        |file: CachedMediaFile|
            FileView {
                path: file.path@,
                modified: file.modified as int,
                bytes: file.bytes as nat,
            },
    )
}

/// The bytes of files together.
pub open spec fn total_bytes(files: Seq<FileView>) -> nat
    decreases files.len(),
{
    if files.len() == 0 {
        0
    } else {
        total_bytes(files.drop_last()) + files.last().bytes
    }
}

/// A size as it is counted: sizes beyond the largest `u64` are not told apart.
pub open spec fn counted(bytes: nat) -> nat {
    if bytes <= u64::MAX {
        bytes
    } else {
        u64::MAX as nat
    }
}

/// What is counted after some bytes are gone.
pub open spec fn counted_after(total: nat, gone: nat) -> nat {
    if gone <= total {
        (total - gone) as nat
    } else {
        0
    }
}

/// The files at some positions.
pub open spec fn picked(files: Seq<FileView>, order: Seq<usize>) -> Seq<FileView> {
    order.map_values(|i: usize| files[i as int])
}

/// The paths of files.
pub open spec fn paths_of(files: Seq<FileView>) -> Seq<Seq<char>> {
    files.map_values(|file: FileView| file.path)
}

/// Whether file `i` goes before file `j`: it is older, or as old and was seen
/// before.
pub open spec fn goes_before(files: Seq<FileView>, i: usize, j: usize) -> bool {
    ||| files[i as int].modified < files[j as int].modified
    ||| files[i as int].modified == files[j as int].modified && i < j
}

/// Whether positions list all files, oldest first.
pub open spec fn is_oldest_first(files: Seq<FileView>, order: Seq<usize>) -> bool {
    &&& order.len() == files.len()
    &&& forall|i: int| 0 <= i < order.len() ==> #[trigger] order[i] < files.len()
    &&& forall|i: int, j: int|
        0 <= i < j < order.len() ==> goes_before(files, #[trigger] order[i], #[trigger] order[j])
    &&& total_bytes(picked(files, order)) == total_bytes(files)
}

/// Whether the first `count` files of an order are what must go: one after the
/// other, for as long as more is counted than may be kept.
pub open spec fn is_trim(files: Seq<FileView>, order: Seq<usize>, count: int, max_bytes: u64) -> bool {
    &&& 0 <= count <= order.len()
    &&& forall|k: int|
        0 <= k < count ==> counted_after(
            counted(total_bytes(files)),
            #[trigger] total_bytes(picked(files, order).take(k)),
        ) > max_bytes
    &&& count < order.len() ==> counted_after(
        counted(total_bytes(files)),
        total_bytes(picked(files, order).take(count)),
    ) <= max_bytes
}

impl CleanupPass {
    /// The completed media that was kept so far, in the order it was seen.
    pub closed spec fn kept(self) -> Seq<FileView> {
        files_view(self.files@)
    }

    /// How many nanoseconds media is kept for, if that is limited.
    pub closed spec fn lifetime(self) -> Option<u128> {
        self.ttl
    }

    /// A pass that has seen nothing.
    pub fn start(ttl: Option<u128>) -> (pass: CleanupPass)
        ensures
            pass.kept() == Seq::<FileView>::empty(),
            pass.lifetime() == ttl,
    {
        let files: Vec<CachedMediaFile> = Vec::new();
        assert(files_view(files@) =~= Seq::<FileView>::empty());
        CleanupPass { ttl, files }
    }

    /// Decides on a file that the pass comes to at `now`.
    pub fn observe(&mut self, path: String, facts: FileFacts, now: i128) -> (decision: Observation)
        ensures
            decision == observation(path@, facts, now as int, old(self).lifetime()),
            facts.is_file && names_completed_media(path@) && facts.modified is Some
                && old(self).lifetime() is Some ==> (decision is Remove <==> now
                - facts.modified->0 > old(self).lifetime()->0),
            final(self).lifetime() == old(self).lifetime(),
            final(self).kept() == if decision is Keep {
                old(self).kept().push(
                    FileView {
                        path: path@,
                        modified: modified_at(facts) as int,
                        bytes: facts.bytes as nat,
                    },
                )
            } else {
                old(self).kept()
            },
    {
        if !facts.is_file || !is_completed_media_file(path.as_str()) {
            return Observation::Skip;
        }
        let modified: i128 = match facts.modified {
            Some(modified) => modified,
            None => 0,
        };
        match self.ttl {
            Some(limit) => {
                if older_than(modified, now, limit) {
                    return Observation::Remove;
                }
            },
            None => {},
        }
        self.files.push(CachedMediaFile { path, modified, bytes: facts.bytes });
        assert(self.kept() =~= old(self).kept().push(
            FileView {
                path: path@,
                modified: modified_at(facts) as int,
                bytes: facts.bytes as nat,
            },
        ));
        Observation::Keep
    }

    /// The media that must go so that no more than `max_bytes` are kept, if
    /// that is limited: the oldest first, and none more than it takes.
    pub fn trim(self, max_bytes: Option<u64>) -> (removed: Vec<String>)
        ensures
            is_removal(self.kept(), text::texts(removed@), max_bytes),
    {
        let mut removed: Vec<String> = Vec::new();
        let max_bytes: u64 = match max_bytes {
            Some(limit) => limit,
            None => {
                assert(text::texts(removed@) =~= Seq::<Seq<char>>::empty());
                return removed;
            },
        };
        let files: Vec<CachedMediaFile> = self.files;
        let ghost all = files_view(files@);
        let order: Vec<usize> = oldest_first(&files);
        let ghost ordered = picked(all, order@);
        let mut total: u64 = count_bytes(&files);
        let mut k: usize = 0;
        assert(ordered.take(0) == Seq::<FileView>::empty());
        while k < order.len() && total > max_bytes
            invariant
                all == files_view(files@),
                is_oldest_first(all, order@),
                ordered == picked(all, order@),
                k <= order@.len(),
                total == counted_after(counted(total_bytes(all)), total_bytes(ordered.take(k as int))),
                forall|j: int|
                    0 <= j < k ==> counted_after(
                        counted(total_bytes(all)),
                        #[trigger] total_bytes(ordered.take(j)),
                    ) > max_bytes,
                text::texts(removed@) == paths_of(ordered.take(k as int)),
            decreases order@.len() - k,
        {
            assert(order@[k as int] < all.len());
            let at: usize = order[k];
            let file: &CachedMediaFile = &files[at];
            assert(all[at as int].bytes == file.bytes);
            assert(ordered.take(k + 1).drop_last() == ordered.take(k as int));
            let ghost before = text::texts(removed@);
            removed.push(file.path.clone());
            assert(text::texts(removed@) =~= before.push(file.path@));
            assert(ordered[k as int] == all[at as int]);
            assert(all[at as int].path == file.path@);
            assert(paths_of(ordered.take(k + 1)) =~= paths_of(ordered.take(k as int)).push(
                file.path@,
            ));
            total = total.saturating_sub(file.bytes);
            k = k + 1;
        }
        assert(is_trim(all, order@, removed@.len() as int, max_bytes)) by {
            assert(text::texts(removed@).len() == removed@.len());
        }
        removed
    }
}

fn count_bytes(files: &Vec<CachedMediaFile>) -> (total: u64)
    ensures
        total == counted(total_bytes(files_view(files@))),
{
    let ghost all = files_view(files@);
    let mut total: u64 = 0;
    let mut i: usize = 0;
    while i < files.len()
        invariant
            i <= files@.len(),
            all == files_view(files@),
            total == counted(total_bytes(all.take(i as int))),
        decreases files@.len() - i,
    {
        assert(all.take(i + 1).drop_last() == all.take(i as int));
        total = total.saturating_add(files[i].bytes);
        i = i + 1;
    }
    assert(all.take(all.len() as int) == all);
    total
}

/// Whether the paths are those of the media that must go.
pub open spec fn is_removal(
    files: Seq<FileView>,
    removed: Seq<Seq<char>>,
    max_bytes: Option<u64>,
) -> bool {
    match max_bytes {
        Some(limit) => exists|order: Seq<usize>|
            {
                &&& #[trigger] is_oldest_first(files, order)
                &&& is_trim(files, order, removed.len() as int, limit)
                &&& removed == paths_of(picked(files, order).take(removed.len() as int))
            },
        None => removed.len() == 0,
    }
}

proof fn lemma_insert_adds_bytes(files: Seq<FileView>, at: int, file: FileView)
    requires
        0 <= at <= files.len(),
    ensures
        total_bytes(files.insert(at, file)) == total_bytes(files) + file.bytes,
    decreases files.len(),
{
    if at == files.len() {
        assert(files.insert(at, file).drop_last() == files);
    } else {
        lemma_insert_adds_bytes(files.drop_last(), at, file);
        assert(files.insert(at, file).drop_last() == files.drop_last().insert(at, file));
    }
}

fn oldest_first(files: &Vec<CachedMediaFile>) -> (order: Vec<usize>)
    ensures
        is_oldest_first(files_view(files@), order@),
{
    let ghost all = files_view(files@);
    let mut order: Vec<usize> = Vec::new();
    let mut i: usize = 0;
    assert(picked(all, order@) =~= all.take(0));
    while i < files.len()
        invariant
            all == files_view(files@),
            i <= files@.len(),
            order@.len() == i,
            forall|k: int| 0 <= k < order@.len() ==> #[trigger] order@[k] < i,
            forall|j: int, k: int|
                0 <= j < k < order@.len() ==> goes_before(
                    all,
                    #[trigger] order@[j],
                    #[trigger] order@[k],
                ),
            total_bytes(picked(all, order@)) == total_bytes(all.take(i as int)),
        decreases files@.len() - i,
    {
        let mut at: usize = 0;
        while at < order.len() && files[order[at]].modified <= files[i].modified
            invariant
                all == files_view(files@),
                i < files@.len(),
                at <= order@.len(),
                forall|k: int| 0 <= k < order@.len() ==> #[trigger] order@[k] < i,
                forall|k: int| 0 <= k < at ==> goes_before(all, #[trigger] order@[k], i),
            decreases order@.len() - at,
        {
            assert(order@[at as int] < i);
            at = at + 1;
        }
        let ghost before = order@;
        order.insert(at, i);
        proof {
            assert(order@ == before.insert(at as int, i));
            assert forall|j: int, k: int| 0 <= j < k < order@.len() implies goes_before(
                all,
                #[trigger] order@[j],
                #[trigger] order@[k],
            ) by {
                let from_j = if j < at {
                    j
                } else {
                    j - 1
                };
                let from_k = if k < at {
                    k
                } else {
                    k - 1
                };
                if j != at {
                    assert(order@[j] == before[from_j]);
                }
                if k != at {
                    assert(order@[k] == before[from_k]);
                }
                if j == at && at < before.len() {
                    assert(before[at as int] < i);
                    assert(all[before[at as int] as int].modified > all[i as int].modified);
                    if from_k != at {
                        assert(goes_before(all, before[at as int], before[from_k]));
                    }
                }
            }
            lemma_insert_adds_bytes(picked(all, before), at as int, all[i as int]);
            assert(picked(all, order@) =~= picked(all, before).insert(at as int, all[i as int]));
            assert(all.take(i + 1).drop_last() == all.take(i as int));
        }
        i = i + 1;
    }
    assert(all.take(all.len() as int) == all);
    order
}

proof fn lemma_bytes_split(files: Seq<FileView>, at: int)
    requires
        0 <= at <= files.len(),
    ensures
        total_bytes(files) == total_bytes(files.take(at)) + total_bytes(files.skip(at)),
    decreases files.len(),
{
    if at == files.len() {
        assert(files.take(at) == files);
        assert(files.skip(at) == Seq::<FileView>::empty());
    } else {
        lemma_bytes_split(files.drop_last(), at);
        assert(files.drop_last().take(at) == files.take(at));
        assert(files.drop_last().skip(at) == files.skip(at).drop_last());
    }
}

/// What stays after a trim fits, and would not with the last file that went.
/// This leaves out sizes that are too large to be counted.
pub proof fn lemma_trimmed_media_fits(
    files: Seq<FileView>,
    order: Seq<usize>,
    count: int,
    max_bytes: u64,
)
    requires
        is_oldest_first(files, order),
        is_trim(files, order, count, max_bytes),
        total_bytes(files) <= u64::MAX,
    ensures
        total_bytes(picked(files, order).skip(count)) <= max_bytes,
        count > 0 ==> total_bytes(picked(files, order).skip(count - 1)) > max_bytes,
{
    let ordered = picked(files, order);
    lemma_bytes_split(ordered, count);
    if count > 0 {
        lemma_bytes_split(ordered, count - 1);
        assert(counted_after(total_bytes(files), total_bytes(ordered.take(count - 1))) > max_bytes);
    }
    if count == order.len() {
        assert(ordered.skip(count) == Seq::<FileView>::empty());
    }
}

/// Whatever goes in a trim was modified no later than anything that stays.
pub proof fn lemma_trim_takes_the_oldest(
    files: Seq<FileView>,
    order: Seq<usize>,
    count: int,
    gone: int,
    kept: int,
)
    requires
        is_oldest_first(files, order),
        0 <= gone < count <= kept < order.len(),
    ensures
        files[order[gone] as int].modified <= files[order[kept] as int].modified,
{
    assert(goes_before(files, order[gone], order[kept]));
}

/// With a lifetime, a completed media file goes exactly where more time than that
/// has passed since it was modified, and is kept otherwise. Without one, every
/// completed media file is kept. Anything else is left alone.
pub proof fn lemma_expired_media_goes(
    path: Seq<char>,
    is_file: bool,
    modified: i128,
    bytes: u64,
    now: int,
    limit: u128,
)
    ensures
        ({
            let facts = FileFacts { is_file, modified: Some(modified), bytes };
            &&& observation(path, facts, now, Some(limit)) is Remove <==> is_file
                && names_completed_media(path) && now - modified > limit
            &&& observation(path, facts, now, Some(limit)) is Keep <==> is_file
                && names_completed_media(path) && now - modified <= limit
            &&& observation(path, facts, now, None) is Keep <==> is_file && names_completed_media(
                path,
            )
            &&& observation(path, facts, now, None) !is Remove
        }),
{
}

/// A media file that does not say when it was modified goes as one from the start
/// of 1970 does.
pub proof fn lemma_undated_media_counts_as_old(
    path: Seq<char>,
    bytes: u64,
    now: int,
    limit: u128,
)
    requires
        names_completed_media(path),
    ensures
        observation(path, FileFacts { is_file: true, modified: None, bytes }, now, Some(limit))
            is Remove <==> now > limit,
{
}

/// Media may be served exactly where it is a file that was modified no later than
/// now and no longer ago than its lifetime.
pub proof fn lemma_served_media_is_fresh(
    is_file: bool,
    modified: i128,
    bytes: u64,
    now: int,
    limit: u128,
)
    ensures
        may_be_served(
            Some(FileFacts { is_file, modified: Some(modified), bytes }),
            now,
            Some(limit),
        ) <==> is_file && 0 <= now - modified <= limit,
        !may_be_served(Some(FileFacts { is_file, modified: None, bytes }), now, Some(limit)),
        may_be_served(Some(FileFacts { is_file, modified: Some(modified), bytes }), now, None)
            <==> is_file,
        !may_be_served(None, now, Some(limit)),
        !may_be_served(None, now, None),
{
}

/// No completed media that is kept, and is not from the future, is too old to be
/// served; and none that goes might still be served.
pub proof fn lemma_kept_media_may_be_served(
    path: Seq<char>,
    facts: FileFacts,
    now: int,
    ttl: Option<u128>,
)
    requires
        facts.modified is Some,
    ensures
        observation(path, facts, now, ttl) is Keep && facts.modified->0 <= now ==> may_be_served(
            Some(facts),
            now,
            ttl,
        ),
        observation(path, facts, now, ttl) is Remove ==> !may_be_served(Some(facts), now, ttl),
{
}

/// A longer lifetime lets nothing go that a shorter one keeps.
pub proof fn lemma_longer_lifetime_keeps_more(
    path: Seq<char>,
    facts: FileFacts,
    now: int,
    shorter: u128,
    longer: u128,
)
    requires
        shorter <= longer,
    ensures
        observation(path, facts, now, Some(shorter)) is Keep ==> observation(
            path,
            facts,
            now,
            Some(longer),
        ) is Keep,
{
}

/// Which names are those of completed media: they end in `.m4a`, and not as those
/// of files that are being downloaded do.
pub proof fn lemma_completed_media_names(directory: Seq<char>, name: Seq<char>)
    requires
        paths::is_component(name),
    ensures
        names_completed_media(paths::joined(directory, name)) <==> {
            &&& exists|stem: Seq<char>| name == #[trigger] (stem + ".m4a"@)
            &&& !exists|stem: Seq<char>| name == #[trigger] (stem + ".download.m4a"@)
        },
{
    paths::lemma_joined_file_name(directory, name);
    lemma_tail_has_a_stem(name, ".m4a"@);
    lemma_tail_has_a_stem(name, ".download.m4a"@);
}

proof fn lemma_tail_has_a_stem(name: Seq<char>, tail: Seq<char>)
    ensures
        text::ends_with(name, tail) <==> exists|stem: Seq<char>| name == #[trigger] (stem + tail),
{
    if text::ends_with(name, tail) {
        let at = name.len() - tail.len();
        let stem = name.take(at);
        assert(name =~= stem + name.skip(at));
        assert(name == stem + tail);
    }
    if exists|stem: Seq<char>| name == #[trigger] (stem + tail) {
        let stem = choose|stem: Seq<char>| name == #[trigger] (stem + tail);
        assert(name.skip(stem.len() as int) =~= tail);
    }
}

/// The bytes of files together are those of each added up.
pub proof fn lemma_bytes_add_up(left: Seq<FileView>, right: Seq<FileView>, file: FileView)
    ensures
        total_bytes(left + right) == total_bytes(left) + total_bytes(right),
        total_bytes(seq![file]) == file.bytes,
{
    let whole = left + right;
    lemma_bytes_split(whole, left.len() as int);
    assert(whole.take(left.len() as int) =~= left);
    assert(whole.skip(left.len() as int) =~= right);
    assert(seq![file].drop_last() =~= Seq::<FileView>::empty());
    assert(total_bytes(Seq::<FileView>::empty()) == 0);
}

/// What a trim removes, of files of which `order` lists each once: those that
/// stand first in it. What stays fits; with the last file that goes it would not;
/// nothing that goes is newer than anything that stays; and nothing goes where
/// all fits, or where there is no limit. This leaves out sizes that are too large
/// to be counted.
pub proof fn lemma_trim_removes_what_must_go(
    files: Seq<FileView>,
    removed: Seq<Seq<char>>,
    max_bytes: u64,
) -> (order: Seq<usize>)
    requires
        is_removal(files, removed, Some(max_bytes)),
        total_bytes(files) <= u64::MAX,
    ensures
        order.len() == files.len(),
        order.no_duplicates(),
        forall|k: int| 0 <= k < order.len() ==> #[trigger] order[k] < files.len(),
        removed.len() <= order.len(),
        forall|k: int|
            0 <= k < removed.len() ==> #[trigger] removed[k] == files[order[k] as int].path,
        forall|gone: int, kept: int|
            0 <= gone < removed.len() <= kept < order.len() ==> files[#[trigger] order[gone] as int].modified
                <= files[#[trigger] order[kept] as int].modified,
        total_bytes(picked(files, order).skip(removed.len() as int)) <= max_bytes,
        removed.len() > 0 ==> total_bytes(picked(files, order).skip(removed.len() - 1))
            > max_bytes,
        total_bytes(files) <= max_bytes ==> removed.len() == 0,
{
    let order = choose|order: Seq<usize>|
        {
            &&& #[trigger] is_oldest_first(files, order)
            &&& is_trim(files, order, removed.len() as int, max_bytes)
            &&& removed == paths_of(picked(files, order).take(removed.len() as int))
        };
    let count = removed.len() as int;
    lemma_trimmed_media_fits(files, order, count, max_bytes);
    assert forall|i: int, j: int|
        0 <= i < order.len() && 0 <= j < order.len() && i != j implies order[i] != order[j] by {
        if i < j {
            assert(goes_before(files, order[i], order[j]));
        } else {
            assert(goes_before(files, order[j], order[i]));
        }
    }
    assert forall|k: int| 0 <= k < removed.len() implies #[trigger] removed[k]
        == files[order[k] as int].path by {
        assert(picked(files, order).take(count)[k] == files[order[k] as int]);
    }
    assert forall|gone: int, kept: int|
        0 <= gone < removed.len() <= kept < order.len() implies files[#[trigger] order[gone] as int].modified
        <= files[#[trigger] order[kept] as int].modified by {
        lemma_trim_takes_the_oldest(files, order, count, gone, kept);
    }
    if count > 0 {
        lemma_bytes_split(picked(files, order), count - 1);
    }
    order
}

/// Without a limit nothing goes.
pub proof fn lemma_no_limit_removes_nothing(files: Seq<FileView>, removed: Seq<Seq<char>>)
    requires
        is_removal(files, removed, None),
    ensures
        removed == Seq::<Seq<char>>::empty(),
{
}

} // verus!
