use img_sort::image::Image;
use img_sort::key::TimeKey;
use img_sort::layout::Step;
use img_sort::text::{get_month, unsigned_text, year_text};
use img_sort::tree::build_tree;
use std::path::PathBuf;

fn image(name: &str) -> Image {
    Image::new(PathBuf::from("source").join(name), String::from(name))
}

fn parts(parts: &[&str]) -> Vec<String> {
    parts.iter().map(|part| String::from(*part)).collect()
}

#[test]
fn months_have_their_names() {
    let names = [
        "January",
        "February",
        "March",
        "April",
        "May",
        "June",
        "July",
        "August",
        "September",
        "October",
        "November",
        "December",
    ];
    for (index, name) in names.iter().enumerate() {
        assert_eq!(get_month(&(index as u32 + 1)), *name);
    }
}

#[test]
fn what_is_no_month_is_unknown() {
    assert_eq!(get_month(&0), "Unknown");
    assert_eq!(get_month(&13), "Unknown");
    assert_eq!(get_month(&u32::MAX), "Unknown");
}

#[test]
fn numbers_are_written_in_decimal() {
    assert_eq!(unsigned_text(0), "0");
    assert_eq!(unsigned_text(7), "7");
    assert_eq!(unsigned_text(10), "10");
    assert_eq!(unsigned_text(1234567890), "1234567890");
    assert_eq!(unsigned_text(u64::MAX), "18446744073709551615");
    assert_eq!(year_text(0), "0");
    assert_eq!(year_text(2024), "2024");
    assert_eq!(year_text(-1), "-1");
    assert_eq!(year_text(-44), "-44");
    assert_eq!(year_text(i32::MAX), "2147483647");
    assert_eq!(year_text(i32::MIN), "-2147483648");
    for year in [-262143, -100, 9, 99, 100, 1970, 262142] {
        assert_eq!(year_text(year), year.to_string());
    }
}

#[test]
fn key_has_its_directory() {
    assert_eq!(TimeKey::YearMonth(2024, 1).directory(), ["2024", "January"]);
    assert_eq!(TimeKey::YearMonth(0, 0).directory(), ["0", "Unknown"]);
    assert_eq!(TimeKey::Year(1999).directory(), ["1999"]);
    assert_eq!(TimeKey::Year(0).directory(), ["0"]);
    assert_eq!(TimeKey::Month(12).directory(), ["December"]);
    assert_eq!(TimeKey::Month(0).directory(), ["Unknown"]);
}

#[test]
fn plan_of_an_empty_tree_is_empty() {
    assert!(build_tree(&true, &true).save_plan().is_empty());
    assert!(build_tree(&true, &false).save_plan().is_empty());
    assert!(build_tree(&false, &true).save_plan().is_empty());
}

#[test]
fn plan_stores_dated_and_undated_files() {
    let mut tree = build_tree(&true, &true);
    tree.insert((2024, 1), image("a.jpg"));
    tree.insert((0, 0), image("b.jpg"));
    let a = PathBuf::from("source").join("a.jpg");
    let b = PathBuf::from("source").join("b.jpg");

    assert_eq!(
        tree.save_plan(),
        vec![
            Step::CreateDir { dir: parts(&["0", "Unknown"]) },
            Step::Copy { source: &b, target: parts(&["0", "Unknown", "b.jpg"]) },
            Step::CreateDir { dir: parts(&["2024", "January"]) },
            Step::Copy { source: &a, target: parts(&["2024", "January", "a.jpg"]) },
        ]
    );
}

#[test]
fn plan_by_year_has_one_directory_a_year() {
    let mut tree = build_tree(&true, &false);
    tree.insert((2024, 6), image("c.jpg"));
    tree.insert((2023, 1), image("a.jpg"));
    tree.insert((2024, 1), image("b.jpg"));
    let a = PathBuf::from("source").join("a.jpg");
    let b = PathBuf::from("source").join("b.jpg");
    let c = PathBuf::from("source").join("c.jpg");

    assert_eq!(
        tree.save_plan(),
        vec![
            Step::CreateDir { dir: parts(&["2023"]) },
            Step::Copy { source: &a, target: parts(&["2023", "a.jpg"]) },
            Step::CreateDir { dir: parts(&["2024"]) },
            Step::Copy { source: &c, target: parts(&["2024", "c.jpg"]) },
            Step::Copy { source: &b, target: parts(&["2024", "b.jpg"]) },
        ]
    );
}

#[test]
fn plan_by_month_has_one_directory_a_month() {
    let mut tree = build_tree(&false, &true);
    tree.insert((2024, 6), image("c.jpg"));
    tree.insert((2023, 1), image("a.jpg"));
    tree.insert((1999, 6), image("b.jpg"));
    tree.insert((0, 0), image("d.jpg"));
    let a = PathBuf::from("source").join("a.jpg");
    let b = PathBuf::from("source").join("b.jpg");
    let c = PathBuf::from("source").join("c.jpg");
    let d = PathBuf::from("source").join("d.jpg");

    assert_eq!(
        tree.save_plan(),
        vec![
            Step::CreateDir { dir: parts(&["Unknown"]) },
            Step::Copy { source: &d, target: parts(&["Unknown", "d.jpg"]) },
            Step::CreateDir { dir: parts(&["January"]) },
            Step::Copy { source: &a, target: parts(&["January", "a.jpg"]) },
            Step::CreateDir { dir: parts(&["June"]) },
            Step::Copy { source: &c, target: parts(&["June", "c.jpg"]) },
            Step::Copy { source: &b, target: parts(&["June", "b.jpg"]) },
        ]
    );
}

#[test]
fn plan_keeps_files_of_one_name_in_bucket_order() {
    let mut tree = build_tree(&true, &true);
    tree.insert((2024, 1), Image::new(PathBuf::from("one").join("a.jpg"), String::from("a.jpg")));
    tree.insert((2024, 1), Image::new(PathBuf::from("two").join("a.jpg"), String::from("a.jpg")));
    let one = PathBuf::from("one").join("a.jpg");
    let two = PathBuf::from("two").join("a.jpg");

    assert_eq!(
        tree.save_plan(),
        vec![
            Step::CreateDir { dir: parts(&["2024", "January"]) },
            Step::Copy { source: &one, target: parts(&["2024", "January", "a.jpg"]) },
            Step::Copy { source: &two, target: parts(&["2024", "January", "a.jpg"]) },
        ]
    );
}

#[test]
fn plan_is_the_same_when_made_again() {
    let mut tree = build_tree(&true, &true);
    tree.insert((2024, 1), image("a.jpg"));
    tree.insert((0, 0), image("b.jpg"));

    assert_eq!(tree.save_plan(), tree.save_plan());
}

#[test]
fn lines_show_the_tree() {
    let mut tree = build_tree(&true, &true);
    tree.insert((2024, 11), image("a.jpg"));
    tree.insert((-3, 2), image("b.jpg"));
    tree.insert((2024, 11), image("c d.jpg"));

    assert_eq!(
        tree.lines(),
        [
            String::from("Year: -3, Month: 2"),
            format!("  Image: {:?}", PathBuf::from("source").join("b.jpg")),
            String::from("Year: 2024, Month: 11"),
            format!("  Image: {:?}", PathBuf::from("source").join("a.jpg")),
            format!("  Image: {:?}", PathBuf::from("source").join("c d.jpg")),
        ]
    );
    assert!(build_tree(&true, &true).lines().is_empty());
}

#[test]
fn heading_names_the_key() {
    assert_eq!(TimeKey::YearMonth(2024, 1).heading(), "Year: 2024, Month: 1");
    assert_eq!(TimeKey::YearMonth(0, 0).heading(), "Year: 0, Month: 0");
    assert_eq!(TimeKey::Year(2024).heading(), "Year: 2024");
    assert_eq!(TimeKey::Month(12).heading(), "Month: 12");
    assert_eq!(TimeKey::Month(4294967295).heading(), "Month: 4294967295");
}
