use laundry_relay::rotation::{copy_names, rotate_files, store_file, FileOp};
use std::collections::BTreeMap;

fn present(dir: &BTreeMap<String, u32>, base: &str) -> [bool; 7] {
    let names = copy_names(base);
    let mut present = [false; 7];
    for i in 0..7 {
        present[i] = dir.contains_key(&names[i]);
    }
    present
}

/// Makes the changes; none of them may miss its file or write over another.
fn change(dir: &mut BTreeMap<String, u32>, ops: Vec<FileOp>) {
    for op in ops {
        match op {
            FileOp::Remove(name) => {
                assert!(dir.remove(&name).is_some());
            }
            FileOp::Rename { from, to } => {
                let content = dir.remove(&from).unwrap();
                assert!(dir.insert(to, content).is_none());
            }
            FileOp::Write { name, text } => {
                assert!(dir.insert(name, text.parse().unwrap()).is_none());
            }
        }
    }
}

fn rotate(dir: &mut BTreeMap<String, u32>, base: &str) {
    let ops = rotate_files(base, &present(dir, base), dir.contains_key(base));
    change(dir, ops);
}

fn copies(dir: &BTreeMap<String, u32>, base: &str) -> Vec<u32> {
    copy_names(base).iter().map(|name| dir.get(name).copied().unwrap_or(0)).collect()
}

#[test]
fn copies_have_numbers() {
    let names = copy_names("12.json");
    assert_eq!(names.len(), 7);
    assert_eq!(names[0], "12.json.old.1");
    assert_eq!(names[6], "12.json.old.7");
}

#[test]
fn the_copies_fill_up_and_then_the_oldest_goes() {
    let mut dir: BTreeMap<String, u32> = BTreeMap::new();
    dir.insert("other".to_string(), 99);
    rotate(&mut dir, "f");
    assert_eq!(copies(&dir, "f"), vec![0, 0, 0, 0, 0, 0, 0]);
    for version in 1..9 {
        dir.insert("f".to_string(), version);
        rotate(&mut dir, "f");
        assert!(!dir.contains_key("f"));
        if version == 3 {
            assert_eq!(copies(&dir, "f"), vec![1, 2, 3, 0, 0, 0, 0]);
        }
    }
    assert_eq!(copies(&dir, "f"), vec![2, 3, 4, 5, 6, 7, 8]);
    assert_eq!(dir.get("other"), Some(&99));
    assert_eq!(dir.len(), 8);
}

#[test]
fn a_missing_copy_makes_room() {
    let mut dir: BTreeMap<String, u32> = BTreeMap::new();
    dir.insert("f".to_string(), 10);
    dir.insert("f.old.2".to_string(), 2);
    rotate(&mut dir, "f");
    assert_eq!(copies(&dir, "f"), vec![0, 2, 10, 0, 0, 0, 0]);
    dir.insert("f.old.7".to_string(), 7);
    dir.insert("f".to_string(), 11);
    rotate(&mut dir, "f");
    assert_eq!(copies(&dir, "f"), vec![2, 10, 0, 0, 0, 7, 11]);
}

#[test]
fn without_the_file_nothing_new_is_kept() {
    assert!(rotate_files("f", &[true, true, false, false, false, false, false], false).is_empty());
    let ops = rotate_files("f", &[true, false, false, false, false, false, true], false);
    assert_eq!(ops.len(), 2);
    assert!(matches!(&ops[0], FileOp::Remove(name) if name == "f.old.1"));
    assert!(matches!(&ops[1], FileOp::Rename { from, to } if from == "f.old.7" && to == "f.old.6"));
}

#[test]
fn a_store_keeps_what_the_file_held() {
    let mut dir: BTreeMap<String, u32> = BTreeMap::new();
    dir.insert("g".to_string(), 99);
    dir.insert("g.old.1".to_string(), 98);
    for version in 1..10 {
        let ops = store_file("f", &present(&dir, "f"), dir.contains_key("f"), version.to_string());
        change(&mut dir, ops);
        assert_eq!(dir.get("f"), Some(&version));
        if version == 3 {
            assert_eq!(copies(&dir, "f"), vec![1, 2, 0, 0, 0, 0, 0]);
        }
    }
    assert_eq!(copies(&dir, "f"), vec![2, 3, 4, 5, 6, 7, 8]);
    assert_eq!((dir.get("g"), dir.get("g.old.1")), (Some(&99), Some(&98)));
}
