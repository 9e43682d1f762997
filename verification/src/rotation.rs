//! Files with their older copies beside them: `name.old.1`, the oldest, to `name.old.7`.
use crate::text::join2;
use vstd::prelude::*;
use vstd::string::*;

verus! {

/// How many older copies are kept.
pub const COPIES: usize = 7;

/// The numeral of a copy.
pub open spec fn numeral(i: int) -> Seq<char> {
    if i == 1 {
        "1"@
    } else if i == 2 {
        "2"@
    } else if i == 3 {
        "3"@
    } else if i == 4 {
        "4"@
    } else if i == 5 {
        "5"@
    } else if i == 6 {
        "6"@
    } else {
        "7"@
    }
}

/// The name of the copy with the number `i` of a file.
pub open spec fn old_name(base: Seq<char>, i: int) -> Seq<char> {
    base + ".old."@ + numeral(i)
}

/// A change in a directory.
#[derive(Debug)]
pub enum FileOp {
    Remove(String),
    Rename { from: String, to: String },
    Write { name: String, text: String },
}

/// What a change in a directory is.
pub enum FileOpView {
    Remove(Seq<char>),
    Rename { from: Seq<char>, to: Seq<char> },
    Write { name: Seq<char>, text: Seq<char> },
}

impl View for FileOp {
    type V = FileOpView;

    open spec fn view(&self) -> FileOpView {
        match self {
            FileOp::Remove(name) => FileOpView::Remove(name@),
            FileOp::Rename { from, to } => FileOpView::Rename { from: from@, to: to@ },
            FileOp::Write { name, text } => FileOpView::Write { name: name@, text: text@ },
        }
    }
}

/// What the changes are.
pub open spec fn ops_of(ops: Seq<FileOp>) -> Seq<FileOpView> {
    ops.map_values(|op: FileOp| op@)
}

/// The highest number among the first `n` copies that there is a copy of, and 0 where there
/// is none.
pub open spec fn highest(present: Seq<bool>, n: int) -> int
    decreases n,
{
    if n <= 0 {
        0
    } else if present[n - 1] {
        n
    } else {
        highest(present, n - 1)
    }
}

/// The changes that move each copy from the `i`th on down by one, the lowest first.
pub open spec fn shifts(base: Seq<char>, present: Seq<bool>, i: int) -> Seq<FileOpView>
    decreases COPIES + 1 - i,
{
    if i > COPIES {
        Seq::empty()
    } else if present[i - 1] {
        seq![FileOpView::Rename { from: old_name(base, i), to: old_name(base, i - 1) }] + shifts(
            base,
            present,
            i + 1,
        )
    } else {
        shifts(base, present, i + 1)
    }
}

/// The change that gives up the oldest copy, if there is a copy 1.
pub open spec fn oldest_goes(base: Seq<char>, present: Seq<bool>) -> Seq<FileOpView> {
    if present[0] {
        seq![FileOpView::Remove(old_name(base, 1))]
    } else {
        Seq::empty()
    }
}

/// The change that makes the file the copy with the number `i`, if there is the file.
pub open spec fn file_becomes(base: Seq<char>, current: bool, i: int) -> Seq<FileOpView> {
    if current {
        seq![FileOpView::Rename { from: base, to: old_name(base, i) }]
    } else {
        Seq::empty()
    }
}

/// The changes that make room for a new file: as long as there is no copy 7, the file
/// becomes the copy after the highest one. Then copy 1, the oldest, goes, the others move
/// down by one, and the file becomes copy 7.
pub open spec fn rotation(base: Seq<char>, present: Seq<bool>, current: bool) -> Seq<FileOpView> {
    let top = highest(present, COPIES as int);
    if top < COPIES {
        file_becomes(base, current, top + 1)
    } else {
        oldest_goes(base, present) + shifts(base, present, 2) + file_becomes(base, current, COPIES as int)
    }
}

/// The changes that keep a text in a file: room is made for it, and it is written.
pub open spec fn storing(base: Seq<char>, present: Seq<bool>, current: bool, text: Seq<char>) -> Seq<FileOpView> {
    rotation(base, present, current).push(FileOpView::Write { name: base, text })
}

/// The numeral of a copy.
fn numeral_text(i: usize) -> (text: &'static str)
    requires
        1 <= i <= COPIES,
    ensures
        text@ == numeral(i as int),
{
    match i {
        1 => "1",
        2 => "2",
        3 => "3",
        4 => "4",
        5 => "5",
        6 => "6",
        _ => "7",
    }
}

/// The name of a copy of a file.
fn copy_name(base: &str, i: usize) -> (name: String)
    requires
        1 <= i <= COPIES,
    ensures
        name@ == old_name(base@, i as int),
{
    join2(base, ".old.").concat(numeral_text(i))
}

/// The names of the copies of a file, from the first to the last.
pub fn copy_names(base: &str) -> (names: Vec<String>)
    ensures
        names.len() == COPIES,
        forall|i: int| 0 <= i < COPIES ==> (#[trigger] names[i])@ == old_name(base@, i + 1),
{
    let mut names: Vec<String> = Vec::new();
    let mut i: usize = 0;
    while i < COPIES
        invariant
            i <= COPIES,
            names.len() == i,
            forall|j: int| 0 <= j < i ==> (#[trigger] names[j])@ == old_name(base@, j + 1),
        decreases COPIES - i,
    {
        names.push(copy_name(base, i + 1));
        i += 1;
    }
    names
}

/// The changes that make room for a new file with the name `base`: `present` tells which
/// copies there are, and `current` whether there is the file.
pub fn rotate_files(base: &str, present: &[bool; 7], current: bool) -> (ops: Vec<FileOp>)
    ensures
        ops_of(ops@) == rotation(base@, present@, current),
{
    let mut top: usize = 0;
    let mut i: usize = 0;
    while i < COPIES
        invariant
            i <= COPIES,
            top == highest(present@, i as int),
            top <= i,
        decreases COPIES - i,
    {
        if present[i] {
            top = i + 1;
        }
        i += 1;
    }
    let mut ops: Vec<FileOp> = Vec::new();
    if top < COPIES {
        if current {
            ops.push(FileOp::Rename { from: base.to_owned(), to: copy_name(base, top + 1) });
        }
        assert(ops_of(ops@) =~= rotation(base@, present@, current));
    } else {
        if present[0] {
            ops.push(FileOp::Remove(copy_name(base, 1)));
        }
        let ghost removal = oldest_goes(base@, present@);
        assert(ops_of(ops@) =~= removal);
        let mut i: usize = 2;
        assert(ops_of(ops@) + shifts(base@, present@, i as int) =~= removal + shifts(base@, present@, 2));
        while i <= COPIES
            invariant
                2 <= i <= COPIES + 1,
                ops_of(ops@) + shifts(base@, present@, i as int) == removal + shifts(base@, present@, 2),
            decreases COPIES + 1 - i,
        {
            let ghost before = ops@;
            if present[i - 1] {
                ops.push(FileOp::Rename { from: copy_name(base, i), to: copy_name(base, i - 1) });
                assert(ops_of(ops@) =~= ops_of(before).push(
                    FileOpView::Rename { from: old_name(base@, i as int), to: old_name(base@, i - 1) },
                ));
                assert(ops_of(ops@) + shifts(base@, present@, i + 1) =~= ops_of(before) + shifts(
                    base@,
                    present@,
                    i as int,
                ));
            }
            i += 1;
        }
        let ghost before = ops@;
        assert(ops_of(before) =~= removal + shifts(base@, present@, 2));
        if current {
            ops.push(FileOp::Rename { from: base.to_owned(), to: copy_name(base, COPIES) });
        }
        assert(ops_of(ops@) =~= ops_of(before) + file_becomes(base@, current, COPIES as int));
    }
    ops
}

/// The changes that keep `text` in the file with the name `base`, what the file holds being
/// kept as its newest copy: `present` and `current` tell which copies there are, and whether
/// there is the file.
pub fn store_file(base: &str, present: &[bool; 7], current: bool, text: String) -> (ops: Vec<FileOp>)
    ensures
        ops_of(ops@) == storing(base@, present@, current, text@),
{
    let mut ops = rotate_files(base, present, current);
    let ghost before = ops@;
    ops.push(FileOp::Write { name: base.to_owned(), text });
    assert(ops_of(ops@) =~= ops_of(before).push(FileOpView::Write { name: base@, text: text@ }));
    ops
}

/// What a file holds: a text, or bytes that are none.
pub enum FileContent {
    Text(Seq<char>),
    Bytes(Seq<u8>),
}

/// The files of a directory, by their names.
pub type Directory = Map<Seq<char>, FileContent>;

/// A directory after a change.
pub open spec fn changed(dir: Directory, op: FileOpView) -> Directory {
    match op {
        FileOpView::Remove(name) => dir.remove(name),
        FileOpView::Rename { from, to } => dir.remove(from).insert(to, dir[from]),
        FileOpView::Write { name, text } => dir.insert(name, FileContent::Text(text)),
    }
}

/// A directory after changes, one after the other.
pub open spec fn changed_by(dir: Directory, ops: Seq<FileOpView>) -> Directory
    decreases ops.len(),
{
    if ops.len() == 0 {
        dir
    } else {
        changed_by(changed(dir, ops[0]), ops.drop_first())
    }
}

/// Whether a change finds the file that it speaks of, and writes over no other.
pub open spec fn harmless(dir: Directory, op: FileOpView) -> bool {
    match op {
        FileOpView::Remove(name) => dir.contains_key(name),
        FileOpView::Rename { from, to } => dir.contains_key(from) && !dir.contains_key(to),
        FileOpView::Write { name, text } => !dir.contains_key(name),
    }
}

/// Whether each of the changes, when its turn comes, finds the file that it speaks of and
/// writes over no other.
pub open spec fn all_harmless(dir: Directory, ops: Seq<FileOpView>) -> bool
    decreases ops.len(),
{
    if ops.len() == 0 {
        true
    } else {
        harmless(dir, ops[0]) && all_harmless(changed(dir, ops[0]), ops.drop_first())
    }
}

/// Which copies of a file there are in a directory.
pub open spec fn copies_in(dir: Directory, base: Seq<char>) -> Seq<bool> {
    Seq::new(COPIES as nat, |i: int| dir.contains_key(old_name(base, i + 1)))
}

/// The number of the copy that a name is of, and 0 where it is of none.
pub open spec fn number_of(base: Seq<char>, name: Seq<char>) -> int {
    if name == old_name(base, 1) {
        1
    } else if name == old_name(base, 2) {
        2
    } else if name == old_name(base, 3) {
        3
    } else if name == old_name(base, 4) {
        4
    } else if name == old_name(base, 5) {
        5
    } else if name == old_name(base, 6) {
        6
    } else if name == old_name(base, 7) {
        7
    } else {
        0
    }
}

/// What stands under a name once copy 1 has gone and the copies before the `i`th have moved
/// down by one.
spec fn shifted_at(dir: Directory, base: Seq<char>, i: int, name: Seq<char>) -> Option<FileContent> {
    let number = number_of(base, name);
    let source = if 0 < number < i - 1 {
        old_name(base, number + 1)
    } else {
        name
    };
    if number == i - 1 || !dir.contains_key(source) {
        None
    } else {
        Some(dir[source])
    }
}

/// The directory once copy 1 has gone and the copies before the `i`th have moved down by one.
spec fn shifted(dir: Directory, base: Seq<char>, i: int) -> Directory {
    Map::new(
        |name: Seq<char>| shifted_at(dir, base, i, name) is Some,
        |name: Seq<char>| shifted_at(dir, base, i, name)->0,
    )
}

/// What stands under a name after a rotation with a copy 7: copy 1 is what copy 2 was, and so
/// on, copy 7 is what the file was, the file is free, and all other names are untouched.
pub open spec fn rotated_at(dir: Directory, base: Seq<char>, name: Seq<char>) -> Option<FileContent> {
    let number = number_of(base, name);
    let source = if number == COPIES {
        base
    } else if number > 0 {
        old_name(base, number + 1)
    } else {
        name
    };
    if name == base || !dir.contains_key(source) {
        None
    } else {
        Some(dir[source])
    }
}

/// The directory after a rotation.
pub open spec fn rotated(dir: Directory, base: Seq<char>) -> Directory {
    let top = highest(copies_in(dir, base), COPIES as int);
    if top < COPIES {
        if dir.contains_key(base) {
            dir.remove(base).insert(old_name(base, top + 1), dir[base])
        } else {
            dir
        }
    } else {
        Map::new(
            |name: Seq<char>| rotated_at(dir, base, name) is Some,
            |name: Seq<char>| rotated_at(dir, base, name)->0,
        )
    }
}

/// The directory after a text has been kept in a file.
pub open spec fn stored(dir: Directory, base: Seq<char>, text: Seq<char>) -> Directory {
    rotated(dir, base).insert(base, FileContent::Text(text))
}

/// How many of `n` contents that are written in turn are kept as copies.
pub open spec fn kept_of(n: nat) -> int {
    if n < COPIES {
        n as int
    } else {
        COPIES as int
    }
}

/// Whether the copies of a file hold the last of `contents`, as many as there are copies, from
/// the oldest to the newest, and there are no other copies.
pub open spec fn holds_last(dir: Directory, base: Seq<char>, contents: Seq<FileContent>) -> bool {
    let kept = kept_of(contents.len());
    forall|i: int|
        1 <= i <= COPIES ==> dir.get(#[trigger] old_name(base, i)) == if i <= kept {
            Some(contents[contents.len() - kept + i - 1])
        } else {
            None
        }
}

/// The directory after contents have been written to a file in turn, each write followed by a
/// rotation.
pub open spec fn written_in_turn(dir: Directory, base: Seq<char>, contents: Seq<FileContent>) -> Directory
    decreases contents.len(),
{
    if contents.len() == 0 {
        dir
    } else {
        rotated(written_in_turn(dir, base, contents.drop_last()).insert(base, contents.last()), base)
    }
}

/// The directory after texts have been kept in a file in turn.
pub open spec fn stored_in_turn(dir: Directory, base: Seq<char>, texts: Seq<Seq<char>>) -> Directory
    decreases texts.len(),
{
    if texts.len() == 0 {
        dir
    } else {
        stored(stored_in_turn(dir, base, texts.drop_last()), base, texts.last())
    }
}

/// What files with these texts hold.
pub open spec fn as_contents(texts: Seq<Seq<char>>) -> Seq<FileContent> {
    texts.map_values(|text: Seq<char>| FileContent::Text(text))
}

/// The names of the copies differ from one another and from the file's.
proof fn lemma_names_differ(base: Seq<char>)
    ensures
        forall|i: int| 1 <= i <= COPIES ==> number_of(base, #[trigger] old_name(base, i)) == i,
        number_of(base, base) == 0,
        forall|i: int| 1 <= i <= COPIES ==> #[trigger] old_name(base, i) != base,
{
    reveal_strlit("1");
    reveal_strlit("2");
    reveal_strlit("3");
    reveal_strlit("4");
    reveal_strlit("5");
    reveal_strlit("6");
    reveal_strlit("7");
    assert forall|i: int| 1 <= i <= COPIES implies (#[trigger] old_name(base, i)).len() == base.len() + ".old."@.len()
        + 1 && old_name(base, i).last() == numeral(i)[0] by {}
    assert forall|i: int| 1 <= i <= COPIES implies number_of(base, #[trigger] old_name(base, i)) == i by {
        assert(old_name(base, 1).last() == '1');
        assert(old_name(base, 2).last() == '2');
        assert(old_name(base, 3).last() == '3');
        assert(old_name(base, 4).last() == '4');
        assert(old_name(base, 5).last() == '5');
        assert(old_name(base, 6).last() == '6');
        assert(old_name(base, 7).last() == '7');
    }
    assert forall|i: int| 1 <= i <= COPIES implies #[trigger] old_name(base, i) != base by {}
}

/// Changes of two lists, one list after the other.
proof fn lemma_changed_by_two(dir: Directory, first: Seq<FileOpView>, second: Seq<FileOpView>)
    ensures
        changed_by(dir, first + second) == changed_by(changed_by(dir, first), second),
        all_harmless(dir, first + second) == (all_harmless(dir, first) && all_harmless(
            changed_by(dir, first),
            second,
        )),
    decreases first.len(),
{
    if first.len() == 0 {
        assert(first + second =~= second);
    } else {
        assert((first + second).drop_first() =~= first.drop_first() + second);
        lemma_changed_by_two(changed(dir, first[0]), first.drop_first(), second);
    }
}

/// One change is one change.
proof fn lemma_changed_by_one(dir: Directory, op: FileOpView)
    ensures
        changed_by(dir, seq![op]) == changed(dir, op),
        all_harmless(dir, seq![op]) == harmless(dir, op),
{
    let ops = seq![op];
    assert(ops.drop_first() =~= Seq::empty());
    assert(changed_by(changed(dir, op), ops.drop_first()) == changed(dir, op));
    assert(all_harmless(changed(dir, op), ops.drop_first()));
}

/// Moving the copies from the `i`th on down leads to where all copies have moved down.
proof fn lemma_shifts(dir: Directory, base: Seq<char>, i: int)
    requires
        2 <= i <= COPIES + 1,
    ensures
        changed_by(shifted(dir, base, i), shifts(base, copies_in(dir, base), i)) == shifted(dir, base, COPIES + 1),
        all_harmless(shifted(dir, base, i), shifts(base, copies_in(dir, base), i)),
    decreases COPIES + 1 - i,
{
    if i <= COPIES {
        lemma_names_differ(base);
        lemma_shifts(dir, base, i + 1);
        let here = shifted(dir, base, i);
        let next = shifted(dir, base, i + 1);
        let op = FileOpView::Rename { from: old_name(base, i), to: old_name(base, i - 1) };
        let rest = shifts(base, copies_in(dir, base), i + 1);
        assert(number_of(base, old_name(base, i)) == i);
        assert(number_of(base, old_name(base, i - 1)) == i - 1);
        if copies_in(dir, base)[i - 1] {
            assert(changed(here, op) =~= next) by {
                assert forall|name: Seq<char>| changed(here, op).contains_key(name) == next.contains_key(name) && (
                changed(here, op).contains_key(name) ==> changed(here, op)[name] == next[name]) by {
                    lemma_number_of(base, name);
                }
            }
            assert((seq![op] + rest).drop_first() =~= rest);
        } else {
            assert(here =~= next) by {
                assert forall|name: Seq<char>| here.contains_key(name) == next.contains_key(name) && (
                here.contains_key(name) ==> here[name] == next[name]) by {
                    lemma_number_of(base, name);
                }
            }
        }
    }
}

/// A name with a number is the name of the copy with that number.
proof fn lemma_number_of(base: Seq<char>, name: Seq<char>)
    ensures
        0 <= number_of(base, name) <= COPIES,
        number_of(base, name) > 0 ==> name == old_name(base, number_of(base, name)),
{
}

/// The highest copy is there, and none after it is.
proof fn lemma_highest(present: Seq<bool>, n: int)
    requires
        0 <= n <= present.len(),
    ensures
        0 <= highest(present, n) <= n,
        highest(present, n) > 0 ==> present[highest(present, n) - 1],
        forall|i: int| highest(present, n) <= i < n ==> !#[trigger] present[i],
    decreases n,
{
    if n > 0 {
        lemma_highest(present, n - 1);
    }
}

/// Rotating the copies of a file, one change after the other, takes a directory to where
/// [`rotated`] says, and no change on the way writes over a file: all that is lost is copy 1,
/// and it only where there is a copy 7.
pub proof fn law_rotation(dir: Directory, base: Seq<char>)
    ensures
        changed_by(dir, rotation(base, copies_in(dir, base), dir.contains_key(base))) == rotated(dir, base),
        all_harmless(dir, rotation(base, copies_in(dir, base), dir.contains_key(base))),
{
    let present = copies_in(dir, base);
    let current = dir.contains_key(base);
    let top = highest(present, COPIES as int);
    lemma_names_differ(base);
    lemma_highest(present, COPIES as int);
    if top < COPIES {
        if current {
            let op = FileOpView::Rename { from: base, to: old_name(base, top + 1) };
            lemma_changed_by_one(dir, op);
            assert(!present[top]);
        }
    } else {
        let removal = oldest_goes(base, present);
        let moves = shifts(base, present, 2);
        let last = file_becomes(base, current, COPIES as int);
        let start = changed_by(dir, removal);
        if present[0] {
            lemma_changed_by_one(dir, FileOpView::Remove(old_name(base, 1)));
        }
        lemma_changed_by_two(dir, removal, moves);
        lemma_changed_by_two(dir, removal + moves, last);
        assert(start =~= shifted(dir, base, 2)) by {
            assert(number_of(base, old_name(base, 1)) == 1);
            assert forall|name: Seq<char>| start.contains_key(name) == shifted(dir, base, 2).contains_key(name) && (
            start.contains_key(name) ==> start[name] == shifted(dir, base, 2)[name]) by {
                lemma_number_of(base, name);
            }
        }
        lemma_shifts(dir, base, 2);
        let moved = shifted(dir, base, COPIES + 1);
        assert(number_of(base, old_name(base, COPIES as int)) == COPIES);
        if current {
            lemma_changed_by_one(moved, FileOpView::Rename { from: base, to: old_name(base, COPIES as int) });
        }
        assert(changed_by(moved, last) =~= rotated(dir, base)) by {
            assert forall|name: Seq<char>| changed_by(moved, last).contains_key(name) == rotated(
                dir,
                base,
            ).contains_key(name) && (changed_by(moved, last).contains_key(name) ==> changed_by(moved, last)[name]
                == rotated(dir, base)[name]) by {
                lemma_number_of(base, name);
            }
        }
    }
}

/// After a rotation the name of the file is free for a new one.
pub proof fn law_rotation_frees_the_name(dir: Directory, base: Seq<char>)
    ensures
        !rotated(dir, base).contains_key(base),
{
    lemma_names_differ(base);
    lemma_highest(copies_in(dir, base), COPIES as int);
}

/// A rotation touches no file but the one that it is for and its copies.
pub proof fn law_rotation_leaves_other_files(dir: Directory, base: Seq<char>, name: Seq<char>)
    requires
        name != base,
        forall|i: int| 1 <= i <= COPIES ==> name != #[trigger] old_name(base, i),
    ensures
        rotated(dir, base).get(name) == dir.get(name),
{
    lemma_number_of(base, name);
    lemma_highest(copies_in(dir, base), COPIES as int);
}

/// What the file and its copies held before a rotation, they hold after it, with the one
/// exception of what copy 1, the oldest, held where there was a copy 7.
pub proof fn law_rotation_keeps_contents(dir: Directory, base: Seq<char>, name: Seq<char>)
    requires
        dir.contains_key(name),
        !(name == old_name(base, 1) && dir.contains_key(old_name(base, COPIES as int))),
    ensures
        exists|kept: Seq<char>| #[trigger] rotated(dir, base).contains_key(kept) && rotated(dir, base)[kept] == dir[name],
{
    let after = rotated(dir, base);
    let present = copies_in(dir, base);
    let top = highest(present, COPIES as int);
    let number = number_of(base, name);
    lemma_names_differ(base);
    lemma_number_of(base, name);
    lemma_highest(present, COPIES as int);
    if top < COPIES {
        if name == base {
            assert(after.contains_key(old_name(base, top + 1)));
        } else {
            if name == old_name(base, top + 1) {
                assert(present[top]);
            }
            assert(after.contains_key(name));
        }
    } else {
        assert(present[COPIES - 1]);
        if name == base {
            assert(number_of(base, old_name(base, COPIES as int)) == COPIES);
            assert(after.contains_key(old_name(base, COPIES as int)));
        } else if number > 0 {
            assert(number_of(base, old_name(base, number - 1)) == number - 1);
            assert(after.contains_key(old_name(base, number - 1)));
        } else {
            assert(after.contains_key(name));
        }
    }
}

/// Where the copies held the last of some contents, they hold the last of those and what the
/// file held after a rotation.
proof fn lemma_rotation_holds_last(dir: Directory, base: Seq<char>, contents: Seq<FileContent>)
    requires
        holds_last(dir, base, contents),
        dir.contains_key(base),
    ensures
        holds_last(rotated(dir, base), base, contents.push(dir[base])),
{
    let present = copies_in(dir, base);
    let top = highest(present, COPIES as int);
    let kept = kept_of(contents.len());
    let longer = contents.push(dir[base]);
    let after = rotated(dir, base);
    lemma_names_differ(base);
    lemma_highest(present, COPIES as int);
    assert(top == kept) by {
        if top > kept {
            assert(present[top - 1]);
            assert(dir.get(old_name(base, top)) is None);
        }
        if top < kept {
            assert(dir.get(old_name(base, kept)) is Some);
            assert(present[kept - 1]);
        }
    }
    let now = kept_of(longer.len());
    assert forall|i: int| 1 <= i <= COPIES implies after.get(#[trigger] old_name(base, i)) == if i <= now {
        Some(longer[longer.len() - now + i - 1])
    } else {
        None
    } by {
        assert(number_of(base, old_name(base, i)) == i);
        if kept < COPIES {
            assert(number_of(base, old_name(base, kept + 1)) == kept + 1);
        } else if i < COPIES {
            assert(dir.get(old_name(base, i + 1)) is Some);
        }
    }
}

/// Of the contents that are written to a file in turn, each write followed by a rotation, the
/// copies hold the last seven, or all where there are fewer, from the oldest to the newest: what
/// is given up is always the oldest.
pub proof fn law_the_oldest_goes(dir: Directory, base: Seq<char>, contents: Seq<FileContent>)
    requires
        forall|i: int| 1 <= i <= COPIES ==> !dir.contains_key(#[trigger] old_name(base, i)),
    ensures
        holds_last(written_in_turn(dir, base, contents), base, contents),
        contents.len() > 0 ==> !written_in_turn(dir, base, contents).contains_key(base),
    decreases contents.len(),
{
    if contents.len() > 0 {
        let rest = contents.drop_last();
        let before = written_in_turn(dir, base, rest);
        let written = before.insert(base, contents.last());
        law_the_oldest_goes(dir, base, rest);
        lemma_names_differ(base);
        assert(holds_last(written, base, rest)) by {
            assert forall|i: int| 1 <= i <= COPIES implies written.get(#[trigger] old_name(base, i)) == before.get(
                old_name(base, i),
            ) by {}
        }
        lemma_rotation_holds_last(written, base, rest);
        assert(rest.push(contents.last()) =~= contents);
        law_rotation_frees_the_name(written, base);
    }
}

/// Keeping a text in a file, one change after the other, takes a directory to where [`stored`]
/// says, and no change on the way writes over a file. The file then holds the text, and what it
/// held before is its newest copy.
pub proof fn law_store(dir: Directory, base: Seq<char>, text: Seq<char>)
    ensures
        changed_by(dir, storing(base, copies_in(dir, base), dir.contains_key(base), text)) == stored(dir, base, text),
        all_harmless(dir, storing(base, copies_in(dir, base), dir.contains_key(base), text)),
        stored(dir, base, text).get(base) == Some(FileContent::Text(text)),
        dir.contains_key(base) ==> ({
            let newest = highest(copies_in(stored(dir, base, text), base), COPIES as int);
            1 <= newest <= COPIES && stored(dir, base, text).get(old_name(base, newest)) == Some(dir[base])
        }),
{
    let ops = rotation(base, copies_in(dir, base), dir.contains_key(base));
    let op = FileOpView::Write { name: base, text };
    law_rotation(dir, base);
    law_rotation_frees_the_name(dir, base);
    lemma_changed_by_two(dir, ops, seq![op]);
    lemma_changed_by_one(rotated(dir, base), op);
    assert(ops + seq![op] =~= storing(base, copies_in(dir, base), dir.contains_key(base), text));
    if dir.contains_key(base) {
        let present = copies_in(dir, base);
        let top = highest(present, COPIES as int);
        let after = stored(dir, base, text);
        let newest = highest(copies_in(after, base), COPIES as int);
        let number = if top < COPIES {
            top + 1
        } else {
            COPIES as int
        };
        lemma_names_differ(base);
        lemma_highest(present, COPIES as int);
        lemma_highest(copies_in(after, base), COPIES as int);
        assert(number_of(base, old_name(base, number)) == number);
        assert(after.get(old_name(base, number)) == Some(dir[base]));
        assert(copies_in(after, base)[number - 1]);
        if newest > number {
            assert(copies_in(after, base)[newest - 1]);
            assert(number_of(base, old_name(base, newest)) == newest);
            assert(!present[newest - 1]);
        }
    }
}

/// Whether a name is that of a file or of one of its copies.
pub open spec fn belongs(base: Seq<char>, name: Seq<char>) -> bool {
    name == base || number_of(base, name) > 0
}

/// Keeping a text in a file touches no file but that one and its copies.
pub proof fn law_store_leaves_other_files(dir: Directory, base: Seq<char>, text: Seq<char>, name: Seq<char>)
    requires
        !belongs(base, name),
    ensures
        stored(dir, base, text).get(name) == dir.get(name),
{
    lemma_names_differ(base);
    assert forall|i: int| 1 <= i <= COPIES implies name != #[trigger] old_name(base, i) by {
        assert(number_of(base, old_name(base, i)) == i);
    }
    law_rotation_leaves_other_files(dir, base, name);
}

/// What a file and its copies hold after a text has been kept in the file depends on what they
/// held before, and on no other file.
pub proof fn law_store_is_local(dir: Directory, like: Directory, base: Seq<char>, text: Seq<char>, name: Seq<char>)
    requires
        forall|own: Seq<char>| #[trigger] belongs(base, own) ==> dir.get(own) == like.get(own),
        belongs(base, name),
    ensures
        stored(dir, base, text).get(name) == stored(like, base, text).get(name),
{
    lemma_names_differ(base);
    lemma_number_of(base, name);
    assert forall|i: int| 1 <= i <= COPIES implies dir.get(#[trigger] old_name(base, i)) == like.get(
        old_name(base, i),
    ) by {
        assert(number_of(base, old_name(base, i)) == i);
        assert(belongs(base, old_name(base, i)));
    }
    assert(belongs(base, base));
    assert(copies_in(dir, base) =~= copies_in(like, base)) by {
        assert forall|i: int| 0 <= i < COPIES implies copies_in(dir, base)[i] == copies_in(like, base)[i] by {
            assert(dir.get(old_name(base, i + 1)) == like.get(old_name(base, i + 1)));
        }
    }
    let number = number_of(base, name);
    if 0 < number < COPIES {
        assert(dir.get(old_name(base, number + 1)) == like.get(old_name(base, number + 1)));
    }
}

/// Two files whose names end in `.json` share no copy, and neither is a copy of the other.
pub proof fn law_files_share_no_copy(one: Seq<char>, other: Seq<char>, name: Seq<char>)
    requires
        belongs(one + ".json"@, name),
        belongs(other + ".json"@, name),
    ensures
        one == other,
{
    let first = one + ".json"@;
    let second = other + ".json"@;
    reveal_strlit(".json");
    assert(".json"@.len() == 5);
    assert(".json"@[4] == 'n');
    if number_of(first, name) > 0 {
        lemma_last_of_copy(first, name);
    }
    if number_of(second, name) > 0 {
        lemma_last_of_copy(second, name);
    }
    assert(first.last() == 'n');
    assert(second.last() == 'n');
    if name != first {
        let i = number_of(first, name);
        assert(number_of(second, name) == i);
        assert(first =~= name.take(name.len() - ".old."@.len() - 1));
        assert(second =~= name.take(name.len() - ".old."@.len() - 1));
    }
    assert(one =~= first.take(first.len() - 5));
    assert(other =~= second.take(second.len() - 5));
}

/// The name of a copy ends in the numeral of the copy.
proof fn lemma_last_of_copy(base: Seq<char>, name: Seq<char>)
    requires
        number_of(base, name) > 0,
    ensures
        name == old_name(base, number_of(base, name)),
        name.len() == base.len() + ".old."@.len() + 1,
        number_of(base, name) == name.last() as int - '0' as int,
        name.last() != 'n',
{
    reveal_strlit("1");
    reveal_strlit("2");
    reveal_strlit("3");
    reveal_strlit("4");
    reveal_strlit("5");
    reveal_strlit("6");
    reveal_strlit("7");
    lemma_number_of(base, name);
    assert(name.last() == numeral(number_of(base, name))[0]);
}

/// Of the texts that are kept in a file in turn, the file holds the last, and its copies the last
/// seven of those before it, or all where there are fewer, from the oldest to the newest.
pub proof fn law_stores_keep_the_last(dir: Directory, base: Seq<char>, texts: Seq<Seq<char>>)
    requires
        texts.len() > 0,
        !dir.contains_key(base),
        forall|i: int| 1 <= i <= COPIES ==> !dir.contains_key(#[trigger] old_name(base, i)),
    ensures
        stored_in_turn(dir, base, texts).get(base) == Some(FileContent::Text(texts.last())),
        holds_last(stored_in_turn(dir, base, texts), base, as_contents(texts.drop_last())),
    decreases texts.len(),
{
    let rest = texts.drop_last();
    let before = stored_in_turn(dir, base, rest);
    let room = rotated(before, base);
    let after = stored_in_turn(dir, base, texts);
    lemma_names_differ(base);
    if rest.len() > 0 {
        law_stores_keep_the_last(dir, base, rest);
        lemma_rotation_holds_last(before, base, as_contents(rest.drop_last()));
        assert(as_contents(rest.drop_last()).push(before[base]) =~= as_contents(rest));
    } else {
        lemma_highest(copies_in(dir, base), COPIES as int);
        assert(highest(copies_in(dir, base), COPIES as int) == 0) by {
            let top = highest(copies_in(dir, base), COPIES as int);
            if top > 0 {
                assert(copies_in(dir, base)[top - 1]);
            }
        }
        assert(holds_last(room, base, as_contents(rest)));
    }
    assert(holds_last(after, base, as_contents(rest))) by {
        assert forall|i: int| 1 <= i <= COPIES implies after.get(#[trigger] old_name(base, i)) == room.get(
            old_name(base, i),
        ) by {}
    }
}

/// The seven copies of a file have its name, `.old.` and their number.
pub proof fn law_copy_names(base: Seq<char>)
    ensures
        COPIES == 7,
        old_name(base, 1) == base + ".old.1"@,
        old_name(base, 2) == base + ".old.2"@,
        old_name(base, 3) == base + ".old.3"@,
        old_name(base, 4) == base + ".old.4"@,
        old_name(base, 5) == base + ".old.5"@,
        old_name(base, 6) == base + ".old.6"@,
        old_name(base, 7) == base + ".old.7"@,
{
    reveal_strlit(".old.");
    reveal_strlit("1");
    reveal_strlit("2");
    reveal_strlit("3");
    reveal_strlit("4");
    reveal_strlit("5");
    reveal_strlit("6");
    reveal_strlit("7");
    reveal_strlit(".old.1");
    reveal_strlit(".old.2");
    reveal_strlit(".old.3");
    reveal_strlit(".old.4");
    reveal_strlit(".old.5");
    reveal_strlit(".old.6");
    reveal_strlit(".old.7");
    assert(old_name(base, 1) =~= base + ".old.1"@);
    assert(old_name(base, 2) =~= base + ".old.2"@);
    assert(old_name(base, 3) =~= base + ".old.3"@);
    assert(old_name(base, 4) =~= base + ".old.4"@);
    assert(old_name(base, 5) =~= base + ".old.5"@);
    assert(old_name(base, 6) =~= base + ".old.6"@);
    assert(old_name(base, 7) =~= base + ".old.7"@);
}

/// What changes do to a directory, one after the other.
pub proof fn law_changes(dir: Directory, ops: Seq<FileOp>, op: FileOp)
    ensures
        changed_by(dir, ops_of(Seq::empty())) == dir,
        ({
            let before = changed_by(dir, ops_of(ops));
            let after = changed_by(dir, ops_of(ops.push(op)));
            &&& op matches FileOp::Remove(name) ==> after == before.remove(name@)
            &&& op matches FileOp::Rename { from, to } ==> after == before.remove(from@).insert(to@, before[from@])
            &&& op matches FileOp::Write { name, text } ==> after == before.insert(
                name@,
                FileContent::Text(text@),
            )
        }),
{
    assert(ops_of(Seq::<FileOp>::empty()) =~= Seq::empty());
    assert(ops_of(ops.push(op)) =~= ops_of(ops) + seq![op@]);
    lemma_changed_by_two(dir, ops_of(ops), seq![op@]);
    lemma_changed_by_one(changed_by(dir, ops_of(ops)), op@);
}

/// What the changes that rotate the copies of a file lead to. Let `top` be the number of the highest
/// copy, or 0 where there is none. Below 7 the file becomes the copy after it, and nothing else
/// changes. At 7 each copy becomes what the one after it was, copy 7 what the file was, and the name
/// of the file is free. A name that is neither the file's nor a copy's is never touched.
pub proof fn law_what_rotation_does(dir: Directory, base: Seq<char>, top: int)
    requires
        0 <= top <= 7,
        top > 0 ==> dir.contains_key(old_name(base, top)),
        forall|i: int| top < i <= 7 ==> !dir.contains_key(#[trigger] old_name(base, i)),
    ensures
        ({
            let present = Seq::new(7, |i: int| dir.contains_key(old_name(base, i + 1)));
            let after = changed_by(dir, rotation(base, present, dir.contains_key(base)));
            &&& top < 7 && dir.contains_key(base) ==> after == dir.remove(base).insert(
                old_name(base, top + 1),
                dir[base],
            )
            &&& top < 7 && !dir.contains_key(base) ==> after == dir
            &&& top == 7 ==> {
                &&& forall|i: int|
                    1 <= i < 7 ==> after.get(#[trigger] old_name(base, i)) == dir.get(old_name(base, i + 1))
                &&& after.get(old_name(base, 7)) == dir.get(base)
                &&& !after.contains_key(base)
            }
            &&& forall|name: Seq<char>|
                name != base && (forall|i: int| 1 <= i <= 7 ==> name != #[trigger] old_name(base, i))
                    ==> #[trigger] after.get(name) == dir.get(name)
        }),
{
    let present = Seq::new(7, |i: int| dir.contains_key(old_name(base, i + 1)));
    let after = changed_by(dir, rotation(base, present, dir.contains_key(base)));
    assert(present =~= copies_in(dir, base));
    law_rotation(dir, base);
    law_rotation_frees_the_name(dir, base);
    lemma_names_differ(base);
    lemma_highest(present, 7);
    assert(highest(present, 7) == top) by {
        let found = highest(present, 7);
        if found > top {
            assert(present[found - 1]);
            assert(!dir.contains_key(old_name(base, found)));
        }
        if found < top {
            assert(!present[top - 1]);
        }
    }
    if top == 7 {
        assert forall|i: int| 1 <= i < 7 implies after.get(#[trigger] old_name(base, i)) == dir.get(
            old_name(base, i + 1),
        ) by {
            assert(number_of(base, old_name(base, i)) == i);
        }
        assert(number_of(base, old_name(base, 7)) == 7);
    }
    assert forall|name: Seq<char>|
        name != base && (forall|i: int| 1 <= i <= 7 ==> name != #[trigger] old_name(base, i)) implies #[trigger] after.get(
        name,
    ) == dir.get(name) by {
        law_rotation_leaves_other_files(dir, base, name);
    }
}

/// Keeping a text in a file is rotating its copies and then writing the text.
pub proof fn law_store_rotates_and_writes(
    dir: Directory,
    base: Seq<char>,
    present: Seq<bool>,
    current: bool,
    text: Seq<char>,
)
    ensures
        changed_by(dir, storing(base, present, current, text)) == changed_by(
            dir,
            rotation(base, present, current),
        ).insert(base, FileContent::Text(text)),
{
    let op = FileOpView::Write { name: base, text };
    let before = changed_by(dir, rotation(base, present, current));
    lemma_changed_by_two(dir, rotation(base, present, current), seq![op]);
    lemma_changed_by_one(before, op);
    assert(rotation(base, present, current) + seq![op] =~= storing(base, present, current, text));
}

/// The copies of a file hold, from the oldest to the newest, the last seven of the contents that
/// were written to it in turn, each write followed by a rotation, or all where there are fewer.
pub proof fn law_last_seven_are_kept(dir: Directory, base: Seq<char>, contents: Seq<FileContent>, i: int)
    requires
        forall|k: int| 1 <= k <= 7 ==> !dir.contains_key(#[trigger] old_name(base, k)),
        1 <= i <= 7,
    ensures
        contents.len() <= 7 && i <= contents.len() ==> written_in_turn(dir, base, contents).get(old_name(base, i))
            == Some(contents[i - 1]),
        contents.len() <= 7 && i > contents.len() ==> written_in_turn(dir, base, contents).get(old_name(base, i))
            is None,
        contents.len() > 7 ==> written_in_turn(dir, base, contents).get(old_name(base, i)) == Some(
            contents[contents.len() - 8 + i],
        ),
        contents.len() > 0 ==> written_in_turn(dir, base, contents) == rotated(
            written_in_turn(dir, base, contents.drop_last()).insert(base, contents.last()),
            base,
        ),
{
    law_the_oldest_goes(dir, base, contents);
}

} // verus!
