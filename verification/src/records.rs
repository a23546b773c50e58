//! Activity records from version control: the normalized record type, date
//! grouping, file categorisation, and player-class detection.

use vstd::prelude::*;
use crate::entity::PlayerClass;
use crate::text::{spec_text_contains, spec_text_contains_ci, spec_text_ends_with,
    spec_text_starts_with, text_contains, text_contains_ci, text_ends_with, text_starts_with};

verus! {

/// Statistics for one commit diff.
#[derive(Debug, Clone, Copy, PartialEq, Eq, Structural)]
pub struct CommitStats {
    pub insertions: u32,
    pub deletions: u32,
    pub files_changed: u32,
}

/// Categorized file counts from one commit.
#[derive(Debug, Clone, Copy, PartialEq, Eq, Structural)]
pub struct FileCategories {
    pub test_files: u32,
    pub config_files: u32,
    pub doc_files: u32,
    pub other_files: u32,
}

impl Default for CommitStats {
    /// All counts start at zero.
    fn default() -> (r: Self)
        ensures
            r == (CommitStats { insertions: 0, deletions: 0, files_changed: 0 }),
    {
        CommitStats { insertions: 0, deletions: 0, files_changed: 0 }
    }
}

impl Default for FileCategories {
    /// All counts start at zero.
    fn default() -> (r: Self)
        ensures
            r == (FileCategories { test_files: 0, config_files: 0, doc_files: 0, other_files: 0 }),
    {
        FileCategories { test_files: 0, config_files: 0, doc_files: 0, other_files: 0 }
    }
}

/// One normalized unit of version-control activity. The calendar source
/// produces the same shape through its own record type.
#[derive(Debug)]
pub struct CommitData {
    pub hash: String,
    /// Day number of the commit date (days since the Common Era), used for
    /// grouping and ordering.
    pub day: i32,
    pub message: String,
    pub insertions: u32,
    pub deletions: u32,
    pub files_changed: u32,
    pub author: String,
    pub is_merge: bool,
    pub file_categories: FileCategories,
}

impl Clone for CommitData {
    /// The clone carries exactly the same fields.
    fn clone(&self) -> (r: Self)
        ensures
            r == *self,
    {
        CommitData {
            hash: self.hash.clone(),
            day: self.day,
            message: self.message.clone(),
            insertions: self.insertions,
            deletions: self.deletions,
            files_changed: self.files_changed,
            author: self.author.clone(),
            is_merge: self.is_merge,
            file_categories: self.file_categories,
        }
    }
}

/// The magnitude of a record: insertions plus deletions, saturating at the
/// integer limit.
pub open spec fn spec_lines_changed(c: CommitData) -> int {
    if c.insertions + c.deletions <= u32::MAX {
        c.insertions + c.deletions
    } else {
        u32::MAX as int
    }
}

impl CommitData {
    /// Total lines changed (insertions plus deletions, saturating).
    pub fn lines_changed(&self) -> (r: u32)
        ensures
            r == spec_lines_changed(*self),
    {
        if self.deletions <= u32::MAX - self.insertions {
            self.insertions + self.deletions
        } else {
            u32::MAX
        }
    }
}

/// Anything that carries a calendar day and can be duplicated; lets the
/// date-grouping pass serve both record shapes.
pub trait Dated: Sized {
    /// The record's day number.
    spec fn spec_day(&self) -> int;

    /// The day number always fits a 32-bit integer.
    proof fn day_in_range(&self)
        ensures
            i32::MIN <= self.spec_day() <= i32::MAX,
    ;

    /// Read the record's day number.
    fn day_of(&self) -> (d: i32)
        ensures
            d == self.spec_day(),
    ;

    /// Duplicate the record, field for field.
    fn duplicate(&self) -> (r: Self)
        ensures
            r == *self,
    ;
}

impl Dated for CommitData {
    open spec fn spec_day(&self) -> int {
        self.day as int
    }

    proof fn day_in_range(&self) {
    }

    fn day_of(&self) -> (d: i32) {
        self.day
    }

    fn duplicate(&self) -> (r: Self) {
        self.clone()
    }
}

/// Some record in `s` falls on `day`.
pub open spec fn spec_has_day<T: Dated>(s: Seq<T>, day: int) -> bool
    decreases s.len(),
{
    s.len() > 0 && (s[0].spec_day() == day || spec_has_day(s.skip(1), day))
}

proof fn lemma_has_day_witness<T: Dated>(s: Seq<T>, k: int)
    requires
        0 <= k < s.len(),
    ensures
        spec_has_day(s, s[k].spec_day()),
    decreases k,
{
    if k > 0 {
        lemma_has_day_witness(s.skip(1), k - 1);
        assert(s.skip(1)[k - 1] == s[k]);
    }
}

proof fn lemma_has_day_exists<T: Dated>(s: Seq<T>, day: int)
    ensures
        spec_has_day(s, day)
            <==> exists|k: int| 0 <= k < s.len() && (#[trigger] s[k]).spec_day() == day,
    decreases s.len(),
{
    if spec_has_day(s, day) {
        if s[0].spec_day() == day {
            assert(s[0].spec_day() == day);
        } else {
            lemma_has_day_exists(s.skip(1), day);
            let k = choose|k: int| 0 <= k < s.skip(1).len()
                && (#[trigger] s.skip(1)[k]).spec_day() == day;
            assert(s[k + 1] == s.skip(1)[k]);
        }
    }
    if exists|k: int| 0 <= k < s.len() && (#[trigger] s[k]).spec_day() == day {
        let k = choose|k: int| 0 <= k < s.len() && (#[trigger] s[k]).spec_day() == day;
        lemma_has_day_witness(s, k);
    }
}

/// The subsequence of `s` whose records fall on `day`, in input order.
pub open spec fn spec_on_day<T: Dated>(s: Seq<T>, day: int) -> Seq<T>
    decreases s.len(),
{
    if s.len() == 0 {
        Seq::empty()
    } else if s[0].spec_day() == day {
        seq![s[0]] + spec_on_day(s.skip(1), day)
    } else {
        spec_on_day(s.skip(1), day)
    }
}

/// A day's group is never longer than the record list itself.
pub proof fn lemma_on_day_len<T: Dated>(s: Seq<T>, day: int)
    ensures
        spec_on_day(s, day).len() <= s.len(),
    decreases s.len(),
{
    if s.len() > 0 {
        lemma_on_day_len(s.skip(1), day);
    }
}

/// Duplicate a list of records, field for field.
pub fn clone_records<T: Dated>(records: &Vec<T>) -> (r: Vec<T>)
    ensures
        r@ == records@,
{
    let n = records.len();
    let mut out: Vec<T> = Vec::new();
    let mut i: usize = 0;
    while i < n
        invariant
            n == records@.len(),
            0 <= i <= n,
            out@ == records@.take(i as int),
        decreases n - i,
    {
        out.push(records[i].duplicate());
        proof {
            assert(out@ =~= records@.take(i + 1));
        }
        i += 1;
    }
    proof {
        assert(records@.take(n as int) =~= records@);
    }
    out
}

/// A day's group is non-empty exactly when some record falls on the day.
pub proof fn lemma_on_day_nonempty<T: Dated>(s: Seq<T>, day: int)
    ensures
        spec_has_day(s, day) <==> spec_on_day(s, day).len() > 0,
    decreases s.len(),
{
    if s.len() > 0 {
        lemma_on_day_nonempty(s.skip(1), day);
    }
}

/// Some group is labelled with day `d`.
pub open spec fn spec_group_for_day<T: Dated>(groups: Seq<(i32, Vec<T>)>, d: int) -> bool {
    exists|i: int| 0 <= i < groups.len() && (#[trigger] groups[i]).0 as int == d
}

/// A well-formed grouping of `records`: one entry per distinct day, in
/// strictly ascending day order, each holding exactly the records of that
/// day in input order.
pub open spec fn spec_grouped_by_day<T: Dated>(records: Seq<T>, groups: Seq<(i32, Vec<T>)>) -> bool {
    &&& forall|i: int, j: int| 0 <= i < j < groups.len()
        ==> (#[trigger] groups[i]).0 < (#[trigger] groups[j]).0
    &&& forall|i: int| 0 <= i < groups.len()
        ==> (#[trigger] groups[i]).1@ == spec_on_day(records, groups[i].0 as int)
            && groups[i].1@.len() > 0
    &&& forall|k: int| 0 <= k < records.len()
        ==> spec_group_for_day(groups, (#[trigger] records[k]).spec_day())
}

fn collect_group<T: Dated>(records: &Vec<T>, day: i32) -> (group: Vec<T>)
    ensures
        group@ == spec_on_day(records@, day as int),
{
    let n = records.len();
    let mut group: Vec<T> = Vec::new();
    let mut i: usize = 0;
    proof {
        assert(records@.skip(0) =~= records@);
        assert(group@ + spec_on_day(records@, day as int) =~= spec_on_day(records@, day as int));
    }
    while i < n
        invariant
            n == records@.len(),
            0 <= i <= n,
            spec_on_day(records@, day as int)
                == group@ + spec_on_day(records@.skip(i as int), day as int),
        decreases n - i,
    {
        let ghost prev = records@.skip(i as int);
        let ghost group0 = group@;
        proof {
            assert(prev[0] == records@[i as int]);
            assert(prev.skip(1) =~= records@.skip(i + 1));
        }
        if records[i].day_of() == day {
            group.push(records[i].duplicate());
            proof {
                assert(group@ + spec_on_day(records@.skip(i + 1), day as int)
                    =~= group0 + spec_on_day(prev, day as int));
            }
        } else {
            proof {
                assert(group@ + spec_on_day(records@.skip(i + 1), day as int)
                    =~= group0 + spec_on_day(prev, day as int));
            }
        }
        i += 1;
    }
    proof {
        assert(records@.skip(n as int) =~= Seq::<T>::empty());
        assert(group@ + spec_on_day(Seq::<T>::empty(), day as int) =~= group@);
    }
    group
}

/// Strictly ascending order on a day list.
pub open spec fn spec_sorted_strict(s: Seq<i32>) -> bool {
    forall|a: int, b: int| 0 <= a < b < s.len() ==> s[a] < s[b]
}

proof fn lemma_insert_keeps_contains(s: Seq<i32>, pos: int, d: i32)
    requires
        0 <= pos <= s.len(),
    ensures
        forall|x: i32| #[trigger] s.insert(pos, d).contains(x) <==> (s.contains(x) || x == d),
{
    let t = s.insert(pos, d);
    assert forall|x: i32| #[trigger] t.contains(x) implies (s.contains(x) || x == d) by {
        let a = choose|a: int| 0 <= a < t.len() && t[a] == x;
        if a < pos {
            assert(s[a] == x);
        } else if a > pos {
            assert(s[a - 1] == x);
        }
    }
    assert forall|x: i32| (s.contains(x) || x == d) implies #[trigger] t.contains(x) by {
        if x == d {
            assert(t[pos] == x);
        } else {
            let a = choose|a: int| 0 <= a < s.len() && s[a] == x;
            if a < pos {
                assert(t[a] == x);
            } else {
                assert(t[a + 1] == x);
            }
        }
    }
}

proof fn lemma_insert_keeps_sorted(s: Seq<i32>, pos: int, d: i32)
    requires
        0 <= pos <= s.len(),
        spec_sorted_strict(s),
        forall|a: int| 0 <= a < pos ==> s[a] < d,
        forall|a: int| pos <= a < s.len() ==> s[a] > d,
    ensures
        spec_sorted_strict(s.insert(pos, d)),
{
    let t = s.insert(pos, d);
    assert forall|a: int, b: int| 0 <= a < b < t.len() implies t[a] < t[b] by {
        if a < pos {
            assert(t[a] == s[a]);
        } else if a > pos {
            assert(t[a] == s[a - 1]);
        }
        if b < pos {
            assert(t[b] == s[b]);
        } else if b > pos {
            assert(t[b] == s[b - 1]);
        }
    }
}

#[verifier::rlimit(50)]
fn distinct_days_sorted<T: Dated>(records: &Vec<T>) -> (days: Vec<i32>)
    ensures
        spec_sorted_strict(days@),
        forall|x: i32| #[trigger] days@.contains(x) <==> spec_has_day(records@, x as int),
{
    let n = records.len();
    let mut days: Vec<i32> = Vec::new();
    let mut i: usize = 0;
    proof {
        assert(records@.skip(0) =~= records@);
    }
    while i < n
        invariant
            n == records@.len(),
            0 <= i <= n,
            spec_sorted_strict(days@),
            forall|x: i32| #[trigger] days@.contains(x) ==> spec_has_day(records@, x as int),
            forall|x: i32| #[trigger] spec_has_day(records@, x as int)
                ==> days@.contains(x) || spec_has_day(records@.skip(i as int), x as int),
        decreases n - i,
    {
        let ghost days0 = days@;
        let ghost rest = records@.skip(i as int);
        proof {
            assert(rest[0] == records@[i as int]);
            assert(rest.skip(1) =~= records@.skip(i + 1));
        }
        let d = records[i].day_of();
        let mut pos: usize = 0;
        let m = days.len();
        while pos < m && days[pos] < d
            invariant
                m == days@.len(),
                days@ == days0,
                0 <= pos <= m,
                spec_sorted_strict(days@),
                forall|a: int| 0 <= a < pos ==> days@[a] < d,
            decreases m - pos,
        {
            pos += 1;
        }
        let present = pos < m && days[pos] == d;
        proof {
            assert forall|a: int| pos <= a < days0.len() && !present implies days0[a] > d by {
                if a > pos {
                    assert(days0[pos as int] < days0[a]);
                }
            }
            if !present && days0.contains(d) {
                let a = choose|a: int| 0 <= a < days0.len() && days0[a] == d;
                assert(false);
            }
        }
        if !present {
            proof {
                lemma_insert_keeps_contains(days0, pos as int, d);
                lemma_insert_keeps_sorted(days0, pos as int, d);
            }
            days.insert(pos, d);
        }
        proof {
            lemma_has_day_witness(records@, i as int);
            assert(spec_has_day(records@, d as int));
            assert forall|x: i32| #[trigger] days@.contains(x)
                implies spec_has_day(records@, x as int) by {
            }
            assert forall|x: i32| #[trigger] spec_has_day(records@, x as int)
                implies days@.contains(x) || spec_has_day(records@.skip(i + 1), x as int) by {
                if days0.contains(x) {
                    assert(days@.contains(x));
                } else if spec_has_day(rest, x as int) {
                    if rest[0].spec_day() == x as int {
                        assert(x == d);
                        if present {
                            assert(days0[pos as int] == d);
                            assert(days0.contains(x));
                        }
                        assert(days@.contains(x));
                    } else {
                        assert(spec_has_day(records@.skip(i + 1), x as int));
                    }
                }
            }
        }
        i += 1;
    }
    proof {
        assert(records@.skip(n as int) =~= Seq::<T>::empty());
        assert forall|x: i32| #[trigger] spec_has_day(records@, x as int)
            implies days@.contains(x) by {
        }
    }
    days
}

/// Group records by their calendar day: one group per distinct day, in
/// ascending day order; within a group the input order is kept.
#[verifier::rlimit(50)]
pub fn group_by_day<T: Dated>(records: &Vec<T>) -> (groups: Vec<(i32, Vec<T>)>)
    ensures
        spec_grouped_by_day(records@, groups@),
{
    let days = distinct_days_sorted(records);
    let mut groups: Vec<(i32, Vec<T>)> = Vec::new();
    let mut i: usize = 0;
    let n = days.len();
    while i < n
        invariant
            n == days@.len(),
            0 <= i <= n,
            groups@.len() == i,
            spec_sorted_strict(days@),
            forall|x: i32| #[trigger] days@.contains(x) <==> spec_has_day(records@, x as int),
            forall|a: int| 0 <= a < i ==> (#[trigger] groups@[a]).0 == days@[a],
            forall|a: int| 0 <= a < i
                ==> (#[trigger] groups@[a]).1@ == spec_on_day(records@, groups@[a].0 as int)
                    && groups@[a].1@.len() > 0,
        decreases n - i,
    {
        let d = days[i];
        let group = collect_group(records, d);
        proof {
            assert(days@[i as int] == d);
            assert(days@.contains(d));
            lemma_on_day_nonempty(records@, d as int);
        }
        groups.push((d, group));
        i += 1;
    }
    proof {
        assert forall|a: int, b: int| 0 <= a < b < groups@.len()
            implies (#[trigger] groups@[a]).0 < (#[trigger] groups@[b]).0 by {
            assert(groups@[a].0 == days@[a] && groups@[b].0 == days@[b]);
        }
        assert forall|k: int| 0 <= k < records@.len()
            implies spec_group_for_day(groups@, (#[trigger] records@[k]).spec_day()) by {
            records@[k].day_in_range();
            let x = records@[k].spec_day() as i32;
            lemma_has_day_witness(records@, k);
            assert(spec_has_day(records@, x as int));
            assert(days@.contains(x));
            let q = choose|q: int| 0 <= q < days@.len() && days@[q] == x;
            assert(0 <= q < groups@.len() && (groups@[q]).0 as int == records@[k].spec_day());
        }
    }
    groups
}

/// Group commit records by date: one group per distinct day, ascending,
/// keeping the input order inside each group.
pub fn group_by_date(commits: &Vec<CommitData>) -> (groups: Vec<(i32, Vec<CommitData>)>)
    ensures
        spec_grouped_by_day(commits@, groups@),
{
    group_by_day(commits)
}

/// A path that counts as a test file: it holds "test" or "spec", or lies
/// under "tests/".
pub open spec fn spec_is_test_file(p: Seq<char>) -> bool {
    spec_text_contains(p, "test"@) || spec_text_contains(p, "spec"@)
        || spec_text_starts_with(p, "tests/"@)
}

/// A path that counts as a configuration file, by extension.
pub open spec fn spec_is_config_file(p: Seq<char>) -> bool {
    spec_text_ends_with(p, ".json"@) || spec_text_ends_with(p, ".toml"@)
        || spec_text_ends_with(p, ".yaml"@) || spec_text_ends_with(p, ".yml"@)
        || spec_text_ends_with(p, ".conf"@) || spec_text_ends_with(p, ".config"@)
}

/// A path that counts as a documentation file, by extension.
pub open spec fn spec_is_doc_file(p: Seq<char>) -> bool {
    spec_text_ends_with(p, ".md"@) || spec_text_ends_with(p, ".txt"@)
        || spec_text_ends_with(p, ".rst"@)
}

/// Whether a (lower-cased) path counts as a test file.
pub fn is_test_file(path: &str) -> (r: bool)
    ensures
        r == spec_is_test_file(path@),
{
    text_contains(path, "test") || text_contains(path, "spec")
        || text_starts_with(path, "tests/")
}

/// Whether a (lower-cased) path counts as a configuration file.
pub fn is_config_file(path: &str) -> (r: bool)
    ensures
        r == spec_is_config_file(path@),
{
    text_ends_with(path, ".json") || text_ends_with(path, ".toml")
        || text_ends_with(path, ".yaml") || text_ends_with(path, ".yml")
        || text_ends_with(path, ".conf") || text_ends_with(path, ".config")
}

/// Whether a (lower-cased) path counts as a documentation file.
pub fn is_doc_file(path: &str) -> (r: bool)
    ensures
        r == spec_is_doc_file(path@),
{
    text_ends_with(path, ".md") || text_ends_with(path, ".txt")
        || text_ends_with(path, ".rst")
}

/// The category counts of a sequence of (lower-cased) file paths: each path
/// is tested in the order test, config, doc, other, and counted once.
pub open spec fn spec_categorize(paths: Seq<Seq<char>>) -> (int, int, int, int)
    decreases paths.len(),
{
    if paths.len() == 0 {
        (0, 0, 0, 0)
    } else {
        let rest = spec_categorize(paths.skip(1));
        if spec_is_test_file(paths[0]) {
            (rest.0 + 1, rest.1, rest.2, rest.3)
        } else if spec_is_config_file(paths[0]) {
            (rest.0, rest.1 + 1, rest.2, rest.3)
        } else if spec_is_doc_file(paths[0]) {
            (rest.0, rest.1, rest.2 + 1, rest.3)
        } else {
            (rest.0, rest.1, rest.2, rest.3 + 1)
        }
    }
}

proof fn lemma_categorize_bounds(paths: Seq<Seq<char>>)
    ensures
        0 <= spec_categorize(paths).0,
        0 <= spec_categorize(paths).1,
        0 <= spec_categorize(paths).2,
        0 <= spec_categorize(paths).3,
        spec_categorize(paths).0 + spec_categorize(paths).1 + spec_categorize(paths).2
            + spec_categorize(paths).3 == paths.len(),
    decreases paths.len(),
{
    if paths.len() > 0 {
        lemma_categorize_bounds(paths.skip(1));
    }
}

/// Categorize a list of (lower-cased) file paths into test, config, doc and
/// other counts.
pub fn categorize_files(paths: &Vec<String>) -> (cats: FileCategories)
    requires
        paths@.len() <= u32::MAX,
    ensures
        ({
            let c = spec_categorize(paths@.map_values(|p: String| p@));
            cats.test_files == c.0 && cats.config_files == c.1
                && cats.doc_files == c.2 && cats.other_files == c.3
        }),
{
    let ghost views = paths@.map_values(|p: String| p@);
    let n = paths.len();
    let mut cats = FileCategories { test_files: 0, config_files: 0, doc_files: 0, other_files: 0 };
    let mut i: usize = 0;
    proof {
        assert(views.skip(0) =~= views);
        lemma_categorize_bounds(views);
    }
    while i < n
        invariant
            n == paths@.len(),
            n <= u32::MAX,
            views == paths@.map_values(|p: String| p@),
            0 <= i <= n,
            ({
                let full = spec_categorize(views);
                let rest = spec_categorize(views.skip(i as int));
                &&& cats.test_files == full.0 - rest.0
                &&& cats.config_files == full.1 - rest.1
                &&& cats.doc_files == full.2 - rest.2
                &&& cats.other_files == full.3 - rest.3
            }),
        decreases n - i,
    {
        proof {
            assert(views.skip(i as int)[0] == views[i as int]);
            assert(views[i as int] == paths@[i as int]@);
            assert(views.skip(i as int).skip(1) =~= views.skip(i + 1));
            lemma_categorize_bounds(views);
            lemma_categorize_bounds(views.skip(i as int));
            lemma_categorize_bounds(views.skip(i + 1));
        }
        let p = &paths[i];
        if is_test_file(p.as_str()) {
            cats.test_files += 1;
        } else if is_config_file(p.as_str()) {
            cats.config_files += 1;
        } else if is_doc_file(p.as_str()) {
            cats.doc_files += 1;
        } else {
            cats.other_files += 1;
        }
        i += 1;
    }
    proof {
        assert(views.skip(n as int) =~= Seq::<Seq<char>>::empty());
    }
    cats
}

/// How many records' messages hold "test", ASCII-case-insensitively.
pub open spec fn spec_count_test_messages(s: Seq<CommitData>) -> int
    decreases s.len(),
{
    if s.len() == 0 {
        0
    } else {
        (if spec_text_contains_ci(s[0].message@, "test"@) { 1int } else { 0int })
            + spec_count_test_messages(s.skip(1))
    }
}

/// The number of distinct days among the records.
pub open spec fn spec_distinct_days(s: Seq<CommitData>) -> nat {
    s.map_values(|c: CommitData| c.day).to_set().len()
}

/// The class a history detects as:
/// more than 100 records make a CodeWarrior; more than 30% test-related
/// messages make an InboxKnight; activity on more than 60% of the days of a
/// span longer than 5 days makes a MeetingSurvivor; anything else (and an
/// empty history) is a Wanderer.
pub open spec fn spec_detect_class(s: Seq<CommitData>) -> PlayerClass {
    if s.len() == 0 {
        PlayerClass::Wanderer
    } else if s.len() > 100 {
        PlayerClass::CodeWarrior
    } else if spec_count_test_messages(s) * 10 > s.len() * 3 {
        PlayerClass::InboxKnight
    } else {
        let span = if s.last().day >= s[0].day {
            s.last().day - s[0].day + 1
        } else {
            s[0].day - s.last().day + 1
        };
        if span > 5 && spec_distinct_days(s) * 5 > span * 3 {
            PlayerClass::MeetingSurvivor
        } else {
            PlayerClass::Wanderer
        }
    }
}

impl PlayerClass {
    /// Auto-detect the player class from activity patterns.
    #[verifier::rlimit(50)]
    pub fn detect(commits: &Vec<CommitData>) -> (class: PlayerClass)
        ensures
            class == spec_detect_class(commits@),
    {
        let n = commits.len();
        if n == 0 {
            return PlayerClass::Wanderer;
        }
        if n > 100 {
            return PlayerClass::CodeWarrior;
        }

        // count test-related messages
        let mut test_count: usize = 0;
        let mut i: usize = 0;
        proof {
            assert(commits@.skip(0) =~= commits@);
        }
        while i < n
            invariant
                n == commits@.len(),
                0 <= i <= n,
                n <= 100,
                test_count <= i,
                spec_count_test_messages(commits@)
                    == test_count + spec_count_test_messages(commits@.skip(i as int)),
            decreases n - i,
        {
            proof {
                assert(commits@.skip(i as int)[0] == commits@[i as int]);
                assert(commits@.skip(i as int).skip(1) =~= commits@.skip(i + 1));
            }
            if text_contains_ci(commits[i].message.as_str(), "test") {
                test_count += 1;
            }
            i += 1;
        }
        proof {
            assert(commits@.skip(n as int) =~= Seq::<CommitData>::empty());
        }
        if test_count * 10 > n * 3 {
            return PlayerClass::InboxKnight;
        }

        // count distinct active days
        let mut days: Vec<i32> = Vec::new();
        let mut j: usize = 0;
        proof {
            assert(commits@.skip(0) =~= commits@);
        }
        while j < n
            invariant
                n == commits@.len(),
                0 <= j <= n,
                days@.no_duplicates(),
                days@.len() <= j,
                forall|x: i32| #[trigger] days@.contains(x)
                    ==> spec_has_day(commits@, x as int),
                forall|x: i32| #[trigger] spec_has_day(commits@, x as int)
                    ==> days@.contains(x) || spec_has_day(commits@.skip(j as int), x as int),
            decreases n - j,
        {
            let ghost days0 = days@;
            let ghost rest = commits@.skip(j as int);
            proof {
                assert(rest[0] == commits@[j as int]);
                assert(rest.skip(1) =~= commits@.skip(j + 1));
            }
            let d = commits[j].day;
            let mut seen = false;
            let mut q: usize = 0;
            let m = days.len();
            while q < m
                invariant
                    m == days@.len(),
                    days@ == days0,
                    0 <= q <= m,
                    seen <==> (exists|a: int| 0 <= a < q && #[trigger] days@[a] == d),
                decreases m - q,
            {
                if days[q] == d {
                    seen = true;
                }
                q += 1;
            }
            proof {
                if !seen && days0.contains(d) {
                    let a = choose|a: int| 0 <= a < days0.len() && days0[a] == d;
                    assert(false);
                }
            }
            if !seen {
                days.push(d);
                proof {
                    assert forall|a: int, b: int| 0 <= a < b < days@.len()
                        implies days@[a] != days@[b] by {
                        if b < days0.len() {
                            assert(days@[a] == days0[a] && days@[b] == days0[b]);
                        } else {
                            assert(days@[b] == d && days@[a] == days0[a]);
                            assert(days0.contains(days0[a]));
                        }
                    }
                    assert forall|x: i32| #[trigger] days@.contains(x)
                        implies (days0.contains(x) || x == d) by {
                        let a = choose|a: int| 0 <= a < days@.len() && days@[a] == x;
                        if a < days0.len() {
                            assert(days0[a] == x);
                        }
                    }
                    assert(days@.contains(d)) by {
                        assert(days@[days0.len() as int] == d);
                    }
                    assert forall|x: i32| days0.contains(x) implies #[trigger] days@.contains(x) by {
                        let a = choose|a: int| 0 <= a < days0.len() && days0[a] == x;
                        assert(days@[a] == x);
                    }
                }
            } else {
                proof {
                    assert(days@.contains(d)) by {
                        let a = choose|a: int| 0 <= a < days0.len() && days0[a] == d;
                        assert(days@[a] == d);
                    }
                }
            }
            proof {
                lemma_has_day_witness(commits@, j as int);
                assert forall|x: i32| #[trigger] spec_has_day(commits@, x as int)
                    implies days@.contains(x) || spec_has_day(commits@.skip(j + 1), x as int) by {
                    if days0.contains(x) {
                        assert(days@.contains(x));
                    } else if spec_has_day(rest, x as int) {
                        if rest[0].spec_day() == x as int {
                            assert(x == d);
                        } else {
                            assert(spec_has_day(commits@.skip(j + 1), x as int));
                        }
                    }
                }
            }
            j += 1;
        }
        let days_with_commits = days.len();
        proof {
            assert(commits@.skip(n as int) =~= Seq::<CommitData>::empty());
            days@.unique_seq_to_set();
            let mapped = commits@.map_values(|c: CommitData| c.day);
            assert forall|x: i32| #[trigger] days@.contains(x) implies mapped.contains(x) by {
                lemma_has_day_exists(commits@, x as int);
                let k = choose|k: int| 0 <= k < commits@.len()
                    && (#[trigger] commits@[k]).spec_day() == x as int;
                assert(mapped[k] == x);
            }
            assert forall|x: i32| #[trigger] mapped.contains(x) implies days@.contains(x) by {
                let k = choose|k: int| 0 <= k < mapped.len() && mapped[k] == x;
                assert(mapped[k] == commits@[k].day);
                lemma_has_day_witness(commits@, k);
                assert(spec_has_day(commits@, x as int));
            }
            assert(days@.to_set() =~= mapped.to_set());
        }

        let first = commits[0].day;
        let last = commits[n - 1].day;
        let span: i64 = if last >= first {
            last as i64 - first as i64 + 1
        } else {
            first as i64 - last as i64 + 1
        };
        proof {
            assert(commits@.last() == commits@[n - 1]);
        }
        if span > 5 && days_with_commits as i64 * 5 > span * 3 {
            return PlayerClass::MeetingSurvivor;
        }
        PlayerClass::Wanderer
    }
}

} // verus!
