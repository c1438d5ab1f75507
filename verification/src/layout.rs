use crate::image::Image;
use crate::key::{lists, ordered, TimeKey};
use crate::text::{decimal, get_month, month_name, year_text};
use crate::tree::Tree;
use std::path::PathBuf;
use vstd::prelude::*;

verus! {

/// One step of storing a tree below a destination directory. Directories
/// and targets are given by their components below that directory.
#[derive(Debug, PartialEq)]
pub enum Step<'a> {
    /// Create the directory and its missing ancestors; nothing to do where
    /// it exists.
    CreateDir { dir: Vec<String> },
    /// Copy the file at `source` to `target`, over what may be there.
    Copy { source: &'a PathBuf, target: Vec<String> },
}

/// What a step says, in plain values.
pub enum StepView {
    CreateDir { dir: Seq<Seq<char>> },
    Copy { source: PathBuf, target: Seq<Seq<char>> },
}

/// The texts of a sequence of strings.
pub open spec fn texts(strings: Seq<String>) -> Seq<Seq<char>> {
    strings.map_values(|string: String| string@)
}

impl View for Step<'_> {
    type V = StepView;

    open spec fn view(&self) -> StepView {
        match self {
            Step::CreateDir { dir } => StepView::CreateDir { dir: texts(dir@) },
            Step::Copy { source, target } => StepView::Copy {
                source: **source,
                target: texts(target@),
            },
        }
    }
}

/// What a sequence of steps says, step by step.
pub open spec fn step_views(steps: Seq<Step>) -> Seq<StepView> {
    steps.map_values(|step: Step| step@)
}

/// The directory of a key, below the destination: the year, then the
/// month's name, as far as the key holds them.
pub open spec fn directory(key: TimeKey) -> Seq<Seq<char>> {
    match key {
        TimeKey::YearMonth(year, month) => seq![decimal(year as int), month_name(month as int)],
        TimeKey::Year(year) => seq![decimal(year as int)],
        TimeKey::Month(month) => seq![month_name(month as int)],
    }
}

/// The step that copies one file into the directory of its key, under its
/// own name.
pub open spec fn copy_step(key: TimeKey, image: Image) -> StepView {
    StepView::Copy { source: image.path, target: directory(key).push(image.name@) }
}

/// The steps for one bucket: its directory first, then its files in the
/// order of the bucket.
pub open spec fn bucket_steps(key: TimeKey, images: Seq<Image>) -> Seq<StepView> {
    seq![StepView::CreateDir { dir: directory(key) }] + images.map_values(
        |image: Image| copy_step(key, image),
    )
}

/// The steps for the buckets of `keys`, in the order of `keys`.
pub open spec fn steps(buckets: Map<TimeKey, Seq<Image>>, keys: Seq<TimeKey>) -> Seq<StepView>
    decreases keys.len(),
{
    if keys.len() == 0 {
        Seq::empty()
    } else {
        steps(buckets, keys.drop_last()) + bucket_steps(keys.last(), buckets[keys.last()])
    }
}

impl TimeKey {
    /// The directory of this key, below the destination.
    pub fn directory(&self) -> (dir: Vec<String>)
        ensures
            texts(dir@) == directory(*self),
    {
        let mut dir: Vec<String> = Vec::new();
        match self {
            TimeKey::YearMonth(year, month) => {
                dir.push(year_text(*year));
                dir.push(get_month(month));
            },
            TimeKey::Year(year) => {
                dir.push(year_text(*year));
            },
            TimeKey::Month(month) => {
                dir.push(get_month(month));
            },
        }
        assert(texts(dir@) =~= directory(*self));
        dir
    }
}

impl Tree {
    /// The steps that store the tree: for every key in ascending order its
    /// directory, then the files of its bucket in their order.
    pub fn save_plan(&self) -> (plan: Vec<Step<'_>>)
        ensures
            step_views(plan@) == steps(self@, ordered(self@.dom())),
    {
        let keys = self.keys();
        let mut plan: Vec<Step<'_>> = Vec::new();
        assert(keys@.take(0) =~= Seq::<TimeKey>::empty());
        assert(step_views(plan@) =~= Seq::<StepView>::empty());
        for at in 0..keys.len()
            invariant
                lists(keys@, self@.dom()),
                step_views(plan@) == steps(self@, keys@.take(at as int)),
        {
            let key = keys[at];
            assert(keys@.contains(key));
            let ghost before = step_views(plan@);
            if let Some(images) = self.bucket(&key) {
                plan.push(Step::CreateDir { dir: key.directory() });
                assert(step_views(plan@) =~= before + bucket_steps(key, images@.take(0)));
                for i in 0..images.len()
                    invariant
                        images@ == self@[key],
                        step_views(plan@) == before + bucket_steps(key, images@.take(i as int)),
                {
                    let image = &images[i];
                    let mut target = key.directory();
                    target.push(image.name.clone());
                    assert(texts(target@) =~= directory(key).push(image.name@));
                    let step = Step::Copy { source: &image.path, target };
                    assert(step@ == copy_step(key, *image));
                    let ghost done = step_views(plan@);
                    plan.push(step);
                    assert(step_views(plan@) =~= done.push(step@));
                    assert(images@.take(i + 1) =~= images@.take(i as int).push(*image));
                    assert(bucket_steps(key, images@.take(i + 1)) =~= bucket_steps(
                        key,
                        images@.take(i as int),
                    ).push(copy_step(key, *image)));
                    assert(step_views(plan@) =~= before + bucket_steps(
                        key,
                        images@.take(i + 1),
                    ));
                }
                assert(images@.take(images@.len() as int) =~= images@);
            }
            assert(keys@.take(at + 1).drop_last() =~= keys@.take(at as int));
            assert(keys@.take(at + 1).last() == key);
        }
        assert(keys@.take(keys@.len() as int) =~= keys@);
        plan
    }
}

} // verus!
