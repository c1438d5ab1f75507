use crate::arguments::Arguments;
use crate::grouping::{filled, find, Candidate, FindError};
use crate::image::Image;
use crate::key::{lists, ordered, TimeKey};
use crate::layout::texts;
use crate::path::{debug_text, path_debug};
use crate::text::{decimal, digits, unsigned_text, year_text};
use crate::tree::{build_tree, shape_for, Tree};
use vstd::prelude::*;
use vstd::string::StringExecFns;

verus! {

/// The line that announces the bucket of a key.
pub open spec fn heading(key: TimeKey) -> Seq<char> {
    match key {
        TimeKey::YearMonth(year, month) => "Year: "@ + decimal(year as int) + ", Month: "@
            + decimal(month as int),
        TimeKey::Year(year) => "Year: "@ + decimal(year as int),
        TimeKey::Month(month) => "Month: "@ + decimal(month as int),
    }
}

/// The line that shows one file of a bucket.
pub open spec fn image_line(image: Image) -> Seq<char> {
    "  Image: "@ + path_debug(image.path)
}

/// The lines for one bucket: its heading, then its files in the order of
/// the bucket.
pub open spec fn bucket_lines(key: TimeKey, images: Seq<Image>) -> Seq<Seq<char>> {
    seq![heading(key)] + images.map_values(|image: Image| image_line(image))
}

/// The lines for the buckets of `keys`, in the order of `keys`.
pub open spec fn listing(buckets: Map<TimeKey, Seq<Image>>, keys: Seq<TimeKey>) -> Seq<Seq<char>>
    decreases keys.len(),
{
    if keys.len() == 0 {
        Seq::empty()
    } else {
        listing(buckets, keys.drop_last()) + bucket_lines(keys.last(), buckets[keys.last()])
    }
}

/// The line that says how many files were found.
pub open spec fn found_line(count: nat) -> Seq<char> {
    "Found "@ + digits(count) + " pieces of media with metadata"@
}

/// What a run has to show for itself: the tree to store, and the lines to
/// print.
#[derive(Debug, PartialEq)]
pub struct Report {
    pub tree: Tree,
    pub lines: Vec<String>,
}

impl TimeKey {
    /// The line that announces the bucket of this key.
    pub fn heading(&self) -> (line: String)
        ensures
            line@ == heading(*self),
    {
        match self {
            TimeKey::YearMonth(year, month) => {
                let mut line = String::from_str("Year: ");
                line.append(year_text(*year).as_str());
                line.append(", Month: ");
                line.append(unsigned_text(*month as u64).as_str());
                line
            },
            TimeKey::Year(year) => {
                let mut line = String::from_str("Year: ");
                line.append(year_text(*year).as_str());
                line
            },
            TimeKey::Month(month) => {
                let mut line = String::from_str("Month: ");
                line.append(unsigned_text(*month as u64).as_str());
                line
            },
        }
    }
}

impl Tree {
    /// The tree as lines of text: for every key in ascending order its
    /// heading, then one line for each file of its bucket.
    pub fn lines(&self) -> (lines: Vec<String>)
        ensures
            texts(lines@) == listing(self@, ordered(self@.dom())),
    {
        let keys = self.keys();
        let mut lines: Vec<String> = Vec::new();
        assert(keys@.take(0) =~= Seq::<TimeKey>::empty());
        assert(texts(lines@) =~= Seq::<Seq<char>>::empty());
        for at in 0..keys.len()
            invariant
                lists(keys@, self@.dom()),
                texts(lines@) == listing(self@, keys@.take(at as int)),
        {
            let key = keys[at];
            assert(keys@.contains(key));
            let ghost before = texts(lines@);
            if let Some(images) = self.bucket(&key) {
                lines.push(key.heading());
                assert(texts(lines@) =~= before + bucket_lines(key, images@.take(0)));
                for i in 0..images.len()
                    invariant
                        images@ == self@[key],
                        texts(lines@) == before + bucket_lines(key, images@.take(i as int)),
                {
                    let image = &images[i];
                    let mut line = String::from_str("  Image: ");
                    line.append(debug_text(&image.path).as_str());
                    let ghost done = texts(lines@);
                    lines.push(line);
                    assert(texts(lines@) =~= done.push(image_line(*image)));
                    assert(images@.take(i + 1) =~= images@.take(i as int).push(*image));
                    assert(bucket_lines(key, images@.take(i + 1)) =~= bucket_lines(
                        key,
                        images@.take(i as int),
                    ).push(image_line(*image)));
                }
                assert(images@.take(images@.len() as int) =~= images@);
            }
            assert(keys@.take(at + 1).drop_last() =~= keys@.take(at as int));
            assert(keys@.take(at + 1).last() == key);
        }
        assert(keys@.take(keys@.len() as int) =~= keys@);
        lines
    }
}

/// Groups what the walk has found, as the arguments ask: by year and
/// month, by year, or by month. The report holds the filled tree, and the
/// lines that say how many files were found and where each of them went.
/// Without any candidate the answer is `NotFound`. One of the two flags
/// must be set.
pub fn run(args: &Arguments, candidates: Vec<Candidate>) -> (result: Result<Report, FindError>)
    requires
        args.years || args.months,
    ensures
        result is Err <==> candidates@.len() == 0,
        result matches Ok(report) ==> {
            &&& report.tree.shape() == shape_for(args.years, args.months)
            &&& report.tree@ == filled(Map::empty(), report.tree.shape(), candidates@)
            &&& report.tree.total() == candidates@.len()
            &&& texts(report.lines@) == seq![found_line(candidates@.len())] + listing(
                report.tree@,
                ordered(report.tree@.dom()),
            )
        },
{
    let mut tree = build_tree(&args.years, &args.months);
    proof {
        tree.lemma_keys();
        assert(tree.total() == 0);
        assert(candidates@.len() == candidates.len());
    }
    let found = find(candidates, &mut tree);
    match found {
        Err(error) => Err(error),
        Ok(()) => {
            let mut lines: Vec<String> = Vec::new();
            let mut line = String::from_str("Found ");
            line.append(unsigned_text(tree.size() as u64).as_str());
            line.append(" pieces of media with metadata");
            lines.push(line);
            let mut listed = tree.lines();
            let ghost first = texts(lines@);
            let ghost rest = texts(listed@);
            lines.append(&mut listed);
            assert(texts(lines@) =~= first + rest);
            assert(first =~= seq![found_line(candidates@.len())]);
            Ok(Report { tree, lines })
        },
    }
}

} // verus!
