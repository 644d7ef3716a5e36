//! Merging of vulnerability reports: the CSV rows of each image report
//! become CVE entries tagged with the image they were found in.
use vstd::prelude::*;
use crate::text::{split_fields, lemma_split_first_field};

verus! {

/// A row of an image report. Every column is text; a missing column is
/// empty.
#[derive(Debug, Default)]
pub struct Record {
    pub cves: String,
    pub description: String,
    pub feed_rating: String,
    pub fixed_version: String,
    pub in_base_image: String,
    pub last_modified_timestamp: String,
    pub link: String,
    pub name: String,
    pub package_name: String,
    pub package_version: String,
    pub published_timestamp: String,
    pub score: String,
    pub score_v3: String,
    pub severity: String,
    pub vectors: String,
    pub vectors_v3: String,
    pub tags: String,
}

/// A CVE entry of the merged report.
#[derive(Debug, PartialEq)]
pub struct Cve {
    pub name: String,
    pub severity: String,
    pub package: String,
    pub version: String,
    pub fixed_version: String,
    pub published_timestamp: String,
    pub image: String,
    pub fixed: bool,
    pub wontfix_reasion: String,
    pub description: String,
}

/// The texts of a CVE entry, field by field.
pub type CveView = (
    Seq<char>,
    Seq<char>,
    Seq<char>,
    Seq<char>,
    Seq<char>,
    Seq<char>,
    Seq<char>,
    bool,
    Seq<char>,
    Seq<char>,
);

impl View for Cve {
    type V = CveView;

    open spec fn view(&self) -> CveView {
        (
            self.name@,
            self.severity@,
            self.package@,
            self.version@,
            self.fixed_version@,
            self.published_timestamp@,
            self.image@,
            self.fixed,
            self.wontfix_reasion@,
            self.description@,
        )
    }
}

/// `c` is the entry made of row `r`, found in image `image`: name,
/// severity, package, version, fixed version, publication time and
/// description come from the row; it is not fixed and has no reason.
pub open spec fn cve_of(c: Cve, r: Record, image: Seq<char>) -> bool {
    &&& c.name == r.name
    &&& c.severity == r.severity
    &&& c.package == r.package_name
    &&& c.version == r.package_version
    &&& c.fixed_version == r.fixed_version
    &&& c.published_timestamp == r.published_timestamp
    &&& c.image@ == image
    &&& !c.fixed
    &&& c.wontfix_reasion@ == Seq::<char>::empty()
    &&& c.description == r.description
}

impl Cve {
    /// The entry made of a row, with no image yet.
    pub fn from(r: Record) -> (c: Cve)
        ensures
            cve_of(c, r, Seq::empty()),
            c.name@ == r.name@,
            c.severity@ == r.severity@,
            c.package@ == r.package_name@,
            c.version@ == r.package_version@,
            c.fixed_version@ == r.fixed_version@,
            c.published_timestamp@ == r.published_timestamp@,
            c.description@ == r.description@,
            c.image@ == Seq::<char>::empty(),
            !c.fixed,
            c.wontfix_reasion@ == Seq::<char>::empty(),
    {
        Cve {
            name: r.name,
            severity: r.severity,
            package: r.package_name,
            version: r.package_version,
            fixed_version: r.fixed_version,
            published_timestamp: r.published_timestamp,
            image: String::new(),
            fixed: false,
            wontfix_reasion: String::new(),
            description: r.description,
        }
    }

    /// Whether two entries hold the same texts.
    pub fn same_as(&self, other: &Cve) -> (b: bool)
        ensures
            b == (self@ == other@),
    {
        self.name == other.name && self.severity == other.severity && self.package == other.package
            && self.version == other.version && self.fixed_version == other.fixed_version
            && self.published_timestamp == other.published_timestamp && self.image == other.image
            && self.fixed == other.fixed && self.wontfix_reasion == other.wontfix_reasion
            && self.description == other.description
    }
}

/// Law of the entries: the entry made of a row, in an image, takes the CVE's
/// name, severity and description from the row, its package from the
/// `package_name` column, its installed version from `package_version` and
/// its fixed version from `fixed_version`, and the publication time from
/// `published_timestamp`; it carries the image, is not fixed, and has no
/// reason.
pub proof fn lemma_entry_columns(c: Cve, r: Record, image: Seq<char>)
    requires
        cve_of(c, r, image),
    ensures
        c.name@ == r.name@,
        c.severity@ == r.severity@,
        c.package@ == r.package_name@,
        c.version@ == r.package_version@,
        c.fixed_version@ == r.fixed_version@,
        c.published_timestamp@ == r.published_timestamp@,
        c.description@ == r.description@,
        c.image@ == image,
        !c.fixed,
        c.wontfix_reasion@ == Seq::<char>::empty(),
{
}

/// Law of merging: every entry that merging appends is made of its row, a
/// row from the third on, in order: its version is the row's
/// `package_version` and its fixed version the row's `fixed_version`, and
/// so on for each column, in the image that the first row names.
pub proof fn lemma_merged_entries(
    rows: Seq<Result<Record, String>>,
    before: Seq<Cve>,
    after: Seq<Cve>,
    r: Result<(), String>,
)
    requires
        merged(rows, before, after, r),
    ensures
        after.len() >= before.len(),
        after.take(before.len() as int) == before,
        forall|j: int|
            0 <= j < after.len() - before.len() ==> match #[trigger] rows[j + 2] {
                Ok(row) => {
                    &&& after[before.len() + j].name@ == row.name@
                    &&& after[before.len() + j].version@ == row.package_version@
                    &&& after[before.len() + j].fixed_version@ == row.fixed_version@
                    &&& after[before.len() + j].package@ == row.package_name@
                    &&& after[before.len() + j].image@ == image_of(rows[0]->Ok_0)
                },
                Err(_) => false,
            },
{
    if rows.len() > 0 && rows[0] is Ok {
        let first = rows[0]->Ok_0;
        let stop = first_bad_row(rows);
        let added = if stop > 2 { stop - 2 } else { 0 };
        assert(appended_rows(rows, before, after, image_of(first), added));
        assert forall|j: int| 0 <= j < after.len() - before.len() implies match #[trigger] rows[j + 2] {
            Ok(row) => {
                &&& after[before.len() + j].name@ == row.name@
                &&& after[before.len() + j].version@ == row.package_version@
                &&& after[before.len() + j].fixed_version@ == row.fixed_version@
                &&& after[before.len() + j].package@ == row.package_name@
                &&& after[before.len() + j].image@ == image_of(rows[0]->Ok_0)
            },
            Err(_) => false,
        } by {
            match rows[j + 2] {
                Ok(row) => {
                    lemma_entry_columns(after[before.len() + j], row, image_of(first));
                },
                Err(_) => {},
            }
        }
    }
}

/// The image that a report names: the text before the first `|` of the
/// `cves` column of its first row.
pub open spec fn image_of(first: Record) -> Seq<char> {
    split_fields(first.cves@, '|')[0]
}

/// The index of the first row from the third on that could not be read, or
/// the number of rows when all could.
pub open spec fn first_bad_row(rows: Seq<Result<Record, String>>) -> int {
    if exists|k: int| 2 <= k < rows.len() && rows[k] is Err {
        choose|k: int|
            2 <= k < rows.len() && rows[k] is Err && forall|j: int|
                2 <= j < k ==> !(#[trigger] rows[j] is Err)
    } else {
        rows.len() as int
    }
}

/// The rows from the third on, up to `added` of them, were read and
/// became the entries appended to `before` in `after`, in order, in image
/// `image`.
pub open spec fn appended_rows(
    rows: Seq<Result<Record, String>>,
    before: Seq<Cve>,
    after: Seq<Cve>,
    image: Seq<char>,
    added: int,
) -> bool {
    &&& after.len() == before.len() + added
    &&& after.take(before.len() as int) == before
    &&& forall|j: int|
        0 <= j < added ==> match #[trigger] rows[j + 2] {
            Ok(row) => cve_of(after[before.len() + j], row, image),
            Err(_) => false,
        }
}

/// What merging `rows` into `before` gives: `after` and the result `r`.
pub open spec fn merged(
    rows: Seq<Result<Record, String>>,
    before: Seq<Cve>,
    after: Seq<Cve>,
    r: Result<(), String>,
) -> bool {
    if rows.len() == 0 {
        after == before && match r {
            Err(e) => e@ == "failed to parse raw"@,
            Ok(_) => false,
        }
    } else {
        match rows[0] {
            Err(e0) => after == before && r == Err::<(), String>(e0),
            Ok(first) => {
                let stop = first_bad_row(rows);
                &&& appended_rows(rows, before, after, image_of(first), if stop > 2 { stop - 2 } else { 0 })
                &&& if stop < rows.len() {
                    r == Err::<(), String>(rows[stop]->Err_0)
                } else {
                    r is Ok
                }
            },
        }
    }
}

/// Merges the rows of one image report into `cves`.
///
/// The first row names the image (the text before the first `|` of its
/// `cves` column); the second is a header and is skipped; every later row
/// becomes an entry of that image, appended in order. Reading stops at the
/// first row that could not be read, with its error; the entries of the
/// rows before it stay appended. A report without rows gives the error
/// `failed to parse raw`.
#[verifier::loop_isolation(false)]
pub fn merge_records(rows: Vec<Result<Record, String>>, cves: &mut Vec<Cve>) -> (r: Result<(), String>)
    ensures
        merged(rows@, old(cves)@, final(cves)@, r),
{
    let ghost all = rows@;
    let ghost start = cves@;
    let total = rows.len();
    let mut rest = rows;
    if rest.len() == 0 {
        return Err(String::from_str("failed to parse raw"));
    }
    let first = match rest.remove(0) {
        Ok(f) => f,
        Err(e) => {
            return Err(e);
        },
    };
    let image = first_field(&first.cves);
    if rest.len() > 0 {
        let _header = rest.remove(0);
    }
    let mut k: usize = if total >= 2 { 2 } else { total };
    assert(rest@ =~= all.skip(k as int));
    assert(cves@.take(start.len() as int) =~= start);
    while rest.len() > 0
        invariant
            k <= all.len(),
            total == all.len(),
            all.len() >= 2 ==> k >= 2,
            all.len() < 2 ==> k == all.len(),
            rest@ == all.skip(k as int),
            all[0] == Ok::<Record, String>(first),
            image@ == image_of(first),
            forall|j: int| 2 <= j < k ==> !(#[trigger] all[j] is Err),
            appended_rows(all, start, cves@, image@, if k > 2 { k - 2 } else { 0 }),
        decreases rest@.len(),
    {
        let item = rest.remove(0);
        assert(item == all[k as int]);
        assert(rest@ =~= all.skip(k + 1));
        match item {
            Ok(row) => {
                let mut cve = Cve::from(row);
                cve.image = image.clone();
                let ghost before = cves@;
                cves.push(cve);
                assert(cves@.take(start.len() as int) =~= before.take(start.len() as int));
                assert forall|j: int| 0 <= j < k + 1 - 2 implies match #[trigger] all[j + 2] {
                    Ok(row) => cve_of(cves@[start.len() + j], row, image@),
                    Err(_) => false,
                } by {
                    if j < k - 2 {
                        assert(cves@[start.len() + j] == before[start.len() + j]);
                    }
                }
            },
            Err(e) => {
                proof {
                    assert(all[k as int] == Err::<Record, String>(e));
                    assert(k >= 2);
                    assert(first_bad_row(all) == k as int) by {
                        let c = choose|c: int| 2 <= c < all.len() && all[c] is Err && forall|j: int|
                            2 <= j < c ==> !(#[trigger] all[j] is Err);
                        if c < k {
                            assert(!(all[c] is Err));
                        } else if c > k {
                            assert(!(all[k as int] is Err));
                        }
                    }
                }
                return Err(e);
            },
        }
        k = k + 1;
    }
    proof {
        assert(first_bad_row(all) == all.len() as int) by {
            if exists|c: int| 2 <= c < all.len() && all[c] is Err {
                let c = choose|c: int| 2 <= c < all.len() && all[c] is Err;
                assert(!(all[c] is Err));
            }
        }
    }
    Ok(())
}

/// The text before the first `|` of `s` (all of `s` when it has none).
fn first_field(s: &String) -> (f: String)
    ensures
        f@ == split_fields(s@, '|')[0],
{
    let t = s.as_str();
    let n = t.unicode_len();
    let mut i: usize = 0;
    while i < n && t.get_char(i) != '|'
        invariant
            n == t@.len(),
            t@ == s@,
            i <= n,
            forall|j: int| 0 <= j < i ==> t@[j] != '|',
        decreases n - i,
    {
        i = i + 1;
    }
    proof {
        lemma_split_first_field(s@, '|', i as int);
    }
    t.substring_char(0, i).to_owned()
}


/// `s` without consecutive repeats: each element that equals the one
/// before it is dropped.
pub open spec fn dedup_views(s: Seq<CveView>) -> Seq<CveView>
    decreases s.len(),
{
    if s.len() <= 1 {
        s
    } else if s.last() == s[s.len() - 2] {
        dedup_views(s.drop_last())
    } else {
        dedup_views(s.drop_last()).push(s.last())
    }
}

proof fn lemma_dedup_last(s: Seq<CveView>)
    requires
        s.len() > 0,
    ensures
        dedup_views(s).len() > 0,
        dedup_views(s).last() == s.last(),
    decreases s.len(),
{
    if s.len() > 1 {
        lemma_dedup_last(s.drop_last());
    }
}

/// The texts of a list of entries.
pub open spec fn cve_views(s: Seq<Cve>) -> Seq<CveView> {
    s.map_values(|c: Cve| c@)
}

/// Drops every entry that repeats the one before it, as `Vec::dedup` does.
pub fn dedup_cves(cves: &mut Vec<Cve>)
    ensures
        cve_views(final(cves)@) == dedup_views(cve_views(old(cves)@)),
{
    let mut rest: Vec<Cve> = Vec::new();
    std::mem::swap(cves, &mut rest);
    let ghost all = rest@;
    let total = rest.len();
    let mut k: usize = 0;
    while rest.len() > 0
        invariant
            total == all.len(),
            all == old(cves)@,
            k + rest@.len() == all.len(),
            rest@ == all.skip(k as int),
            cve_views(cves@) == dedup_views(cve_views(all.take(k as int))),
        decreases rest@.len(),
    {
        let c = rest.remove(0);
        assert(c == all[k as int]);
        assert(rest@ =~= all.skip(k + 1));
        let ghost prefix = cve_views(all.take(k as int));
        let ghost next = cve_views(all.take(k + 1));
        assert(next.drop_last() =~= prefix);
        assert(next.last() == c@);
        let repeat = if cves.len() > 0 {
            proof {
                lemma_dedup_last(prefix);
                assert(cve_views(cves@).last() == cves@[cves@.len() - 1]@);
                assert(prefix.last() == next[next.len() - 2]);
            }
            cves[cves.len() - 1].same_as(&c)
        } else {
            assert(prefix.len() == 0) by {
                if prefix.len() > 0 {
                    lemma_dedup_last(prefix);
                }
            }
            false
        };
        if !repeat {
            cves.push(c);
            assert(cve_views(cves@) =~= dedup_views(next));
        } else {
            assert(cve_views(cves@) =~= dedup_views(next));
        }
        k = k + 1;
    }
    assert(all.take(k as int) =~= all);
}

} // verus!
