//! The table of machines: what is put into it out of the files of the rooms, and what is
//! answered out of it.
use crate::archiver::{reads_back, ArchiveStepView};
use crate::clock::{is_exact_stamp, utc_now_text};
use crate::files::{file_name, room_path};
use crate::json::{
    json_from_str, json_parse, json_parse_list, json_text, json_to_string, json_tree, json_trees,
    lemma_items_readable, no_fractions, reads_as, text_at, tree_member, tree_str, JsonTree,
};
use crate::query::{pairs, param, value_of};
use crate::reply::{json_reply, text_reply, Content, Reply, ReplyView};
use crate::rotation::{numeral, old_name, COPIES};
use crate::text::{has_json_extension, is_json_file, opt_text};
use vstd::prelude::*;

verus! {

/// A machine as it is put into the table: its QR code, and the text of its document.
#[derive(Debug)]
pub struct MachineRow {
    pub qr_code: String,
    pub data: String,
}

/// What a row of the table is.
pub struct MachineRowView {
    pub qr_code: Seq<char>,
    pub data: Seq<char>,
}

impl View for MachineRow {
    type V = MachineRowView;

    open spec fn view(&self) -> MachineRowView {
        MachineRowView { qr_code: self.qr_code@, data: self.data@ }
    }
}

/// A step of an update of the table.
#[derive(Debug)]
pub enum Planned {
    /// The rows that are there are to be taken out.
    Clear,
    /// A row is to be put in.
    Insert(MachineRow),
    /// A machine, with this document, has no QR code, and is left out.
    NoCode(String),
    /// The file with this number is no list of documents, and is left out.
    NotJson(usize),
    /// The file with this number could not be read, and is left out.
    Unreadable(usize),
}

/// What a step of an update is.
pub enum PlannedView {
    Clear,
    Insert(MachineRowView),
    NoCode(Seq<char>),
    NotJson(int),
    Unreadable(int),
}

impl View for Planned {
    type V = PlannedView;

    open spec fn view(&self) -> PlannedView {
        match self {
            Planned::Clear => PlannedView::Clear,
            Planned::Insert(row) => PlannedView::Insert(row@),
            Planned::NoCode(document) => PlannedView::NoCode(document@),
            Planned::NotJson(file) => PlannedView::NotJson(*file as int),
            Planned::Unreadable(file) => PlannedView::Unreadable(*file as int),
        }
    }
}

/// The QR code of a machine.
pub open spec fn qr_code_of(machine: JsonTree) -> Option<Seq<char>> {
    tree_str(tree_member(machine, "qrCodeId"@))
}

/// What is to be done with a machine.
pub open spec fn machine_plan(machine: JsonTree) -> PlannedView {
    match qr_code_of(machine) {
        Some(qr_code) => PlannedView::Insert(MachineRowView { qr_code, data: json_text(machine) }),
        None => PlannedView::NoCode(json_text(machine)),
    }
}

/// What is to be done with a file: its machines are taken in turn.
pub open spec fn file_plan(file: int, content: Option<Seq<char>>) -> Seq<PlannedView> {
    match content {
        Some(text) => match json_parse_list(text) {
            Some(machines) => machines.map_values(|machine: JsonTree| machine_plan(machine)),
            None => seq![PlannedView::NotJson(file)],
        },
        None => seq![PlannedView::Unreadable(file)],
    }
}

/// What is to be done with a list of files: they are taken in turn.
pub open spec fn files_plan(contents: Seq<Option<Seq<char>>>) -> Seq<PlannedView>
    decreases contents.len(),
{
    if contents.len() == 0 {
        Seq::empty()
    } else {
        files_plan(contents.drop_last()) + file_plan(contents.len() - 1, contents.last())
    }
}

/// What is to be done for an update of the table: nothing where there is no directory of rooms,
/// and elsewhere the table is emptied, and filled from the files.
pub open spec fn update_plan(there: bool, is_dir: bool, contents: Seq<Option<Seq<char>>>) -> Seq<PlannedView> {
    if there && is_dir {
        seq![PlannedView::Clear] + files_plan(contents)
    } else {
        Seq::empty()
    }
}

/// What the files hold, as far as they could be read.
pub open spec fn contents_of(files: Seq<Option<String>>) -> Seq<Option<Seq<char>>> {
    files.map_values(|content: Option<String>| opt_text(content))
}

/// The machines of a file: none where it could not be read, or is no list.
pub open spec fn machines_in(content: Option<Seq<char>>) -> Seq<JsonTree> {
    match content {
        Some(text) => match json_parse_list(text) {
            Some(machines) => machines,
            None => Seq::empty(),
        },
        None => Seq::empty(),
    }
}

/// Whether each machine of a file that holds no number but integers is read back from the text
/// that is put into the table for it.
pub open spec fn file_reads_back(content: Option<Seq<char>>) -> bool {
    forall|i: int|
        0 <= i < machines_in(content).len() && no_fractions(#[trigger] machines_in(content)[i]) ==> json_parse(
            json_text(machines_in(content)[i]),
        ) == Some(machines_in(content)[i])
}

/// What the steps are.
pub open spec fn steps(planned: Seq<Planned>) -> Seq<PlannedView> {
    planned.map_values(|step: Planned| step@)
}

/// The positions of the JSON files among the files of a folder, in their order.
pub fn json_files(names: &Vec<String>) -> (positions: Vec<usize>)
    ensures
        forall|i: int, j: int| 0 <= i < j < positions.len() ==> positions[i] < positions[j],
        forall|k: int|
            0 <= k < names.len() ==> (has_json_extension((#[trigger] names[k])@) <==> positions@.contains(k as usize)),
        forall|i: int| 0 <= i < positions.len() ==> (#[trigger] positions[i]) < names.len(),
{
    let mut positions: Vec<usize> = Vec::new();
    let mut k: usize = 0;
    while k < names.len()
        invariant
            k <= names.len(),
            forall|i: int, j: int| 0 <= i < j < positions.len() ==> positions[i] < positions[j],
            forall|i: int| 0 <= i < positions.len() ==> (#[trigger] positions[i]) < k,
            forall|j: int|
                0 <= j < k ==> (has_json_extension((#[trigger] names[j])@) <==> positions@.contains(j as usize)),
        decreases names.len() - k,
    {
        let ghost before = positions@;
        if is_json_file(names[k].as_str()) {
            positions.push(k);
            assert(positions@[positions@.len() - 1] == k);
        }
        proof {
            assert forall|j: int| 0 <= j < k + 1 implies (has_json_extension((#[trigger] names[j])@)
                <==> positions@.contains(j as usize)) by {
                if j < k {
                    if before.contains(j as usize) {
                        let i = choose|i: int| 0 <= i < before.len() && before[i] == j as usize;
                        assert(positions@[i] == j as usize);
                    }
                    if positions@.contains(j as usize) {
                        let i = choose|i: int| 0 <= i < positions@.len() && positions@[i] == j as usize;
                        assert(before[i] == j as usize);
                    }
                } else if positions@.contains(j as usize) {
                    let i = choose|i: int| 0 <= i < positions@.len() && positions@[i] == j as usize;
                    assert(i >= before.len());
                }
            }
        }
        k += 1;
    }
    positions
}

/// What is to be done with the machines of a file, in turn.
pub fn plan_machines(machines: &Vec<serde_json::Value>) -> (planned: Vec<Planned>)
    ensures
        steps(planned@) == json_trees(machines@).map_values(|machine: JsonTree| machine_plan(machine)),
        planned.len() == machines.len(),
        forall|i: int|
            0 <= i < machines.len() ==> (#[trigger] planned[i])@ == machine_plan(json_tree(machines[i])),
        forall|i: int|
            0 <= i < machines.len() ==> reads_as(
                json_text(#[trigger] json_trees(machines@)[i]),
                json_trees(machines@)[i],
            ),
{
    let mut planned: Vec<Planned> = Vec::new();
    let ghost trees = json_trees(machines@);
    let mut i: usize = 0;
    assert(steps(planned@) =~= trees.take(0).map_values(|machine: JsonTree| machine_plan(machine)));
    while i < machines.len()
        invariant
            i <= machines.len(),
            trees == json_trees(machines@),
            steps(planned@) == trees.take(i as int).map_values(|machine: JsonTree| machine_plan(machine)),
            forall|j: int| 0 <= j < i ==> reads_as(json_text(#[trigger] trees[j]), trees[j]),
        decreases machines.len() - i,
    {
        let ghost before = steps(planned@);
        assert(trees[i as int] == json_tree(machines@[i as int]));
        let data = json_to_string(&machines[i]);
        match text_at(&machines[i], "qrCodeId") {
            Some(qr_code) => planned.push(Planned::Insert(MachineRow { qr_code, data })),
            None => planned.push(Planned::NoCode(data)),
        }
        assert(steps(planned@) =~= before.push(machine_plan(trees[i as int])));
        assert(steps(planned@) =~= trees.take(i + 1).map_values(|machine: JsonTree| machine_plan(machine)));
        i += 1;
    }
    assert(trees.take(i as int) =~= trees);
    assert(steps(planned@).len() == planned.len());
    assert forall|k: int| 0 <= k < machines.len() implies (#[trigger] planned[k])@ == machine_plan(
        json_tree(machines[k]),
    ) by {
        assert(steps(planned@)[k] == planned@[k]@);
        assert(trees[k] == json_tree(machines@[k]));
    }
    planned
}

/// What is to be done with a file.
fn plan_file(file: usize, content: &Option<String>) -> (planned: Vec<Planned>)
    ensures
        steps(planned@) == file_plan(file as int, opt_text(*content)),
        file_reads_back(opt_text(*content)),
{
    let step = match content {
        Some(text) => match json_from_str(text.as_str()) {
            Ok(value) => match value.as_array() {
                Some(machines) => {
                    let planned = plan_machines(machines);
                    proof {
                        lemma_items_readable(json_trees(machines@));
                    }
                    return planned;
                },
                None => Planned::NotJson(file),
            },
            Err(_) => Planned::NotJson(file),
        },
        None => Planned::Unreadable(file),
    };
    let planned = vec![step];
    assert(steps(planned@) =~= file_plan(file as int, opt_text(*content)));
    planned
}

/// What is to be done to fill the table from the JSON files of the rooms, in this order.
/// `there` and `is_dir` tell whether there is something with the name of the directory of
/// rooms, and whether it is a directory.
pub fn plan_update(there: bool, is_dir: bool, files: &Vec<Option<String>>) -> (planned: Vec<Planned>)
    ensures
        steps(planned@) == update_plan(there, is_dir, contents_of(files@)),
        there && is_dir ==> forall|i: int|
            0 <= i < files.len() ==> file_reads_back(#[trigger] contents_of(files@)[i]),
{
    let mut planned: Vec<Planned> = Vec::new();
    if !there || !is_dir {
        assert(steps(planned@) =~= Seq::empty());
        return planned;
    }
    planned.push(Planned::Clear);
    let mut i: usize = 0;
    let ghost clear = seq![PlannedView::Clear];
    assert(steps(planned@) =~= clear + files_plan(contents_of(files@).take(0)));
    while i < files.len()
        invariant
            i <= files.len(),
            steps(planned@) == clear + files_plan(contents_of(files@).take(i as int)),
            forall|j: int| 0 <= j < i ==> file_reads_back(#[trigger] contents_of(files@)[j]),
        decreases files.len() - i,
    {
        let ghost before = planned@;
        let mut more = plan_file(i, &files[i]);
        let ghost added = more@;
        planned.append(&mut more);
        assert(steps(planned@) =~= steps(before) + steps(added));
        assert(contents_of(files@).take(i + 1).drop_last() =~= contents_of(files@).take(i as int));
        assert(steps(planned@) =~= clear + files_plan(contents_of(files@).take(i + 1)));
        i += 1;
    }
    assert(contents_of(files@).take(i as int) =~= contents_of(files@));
    planned
}

/// Whether an update goes on after a step that was done, or could not be: it ends where the table
/// could not be emptied, and a row that could not be put in holds up nothing.
pub open spec fn continues(step: PlannedView, done: bool) -> bool {
    done || step !is Clear
}

/// Tells whether an update goes on after a step that was done, or could not be. Where it does not,
/// the update has failed.
pub fn goes_on(step: &Planned, done: bool) -> (on: bool)
    ensures
        on == continues(step@, done),
{
    match step {
        Planned::Clear => done,
        _ => true,
    }
}

/// How many of the steps are tried, where `done` tells of each whether it can be done.
pub open spec fn steps_tried(planned: Seq<PlannedView>, done: Seq<bool>) -> int
    decreases planned.len(),
{
    if planned.len() == 0 {
        0
    } else if continues(planned[0], done[0]) {
        1 + steps_tried(planned.drop_first(), done.drop_first())
    } else {
        1
    }
}

/// How many of the rows went in.
pub open spec fn count_true(inserted: Seq<bool>) -> nat
    decreases inserted.len(),
{
    if inserted.len() == 0 {
        0
    } else {
        count_true(inserted.drop_last()) + if inserted.last() {
            1nat
        } else {
            0
        }
    }
}

/// How many of the rows that were to be put in did go in.
pub fn count_inserted(inserted: &Vec<bool>) -> (count: usize)
    ensures
        count == count_true(inserted@),
{
    let mut count: usize = 0;
    let mut i: usize = 0;
    assert(inserted@.take(0) =~= Seq::empty());
    while i < inserted.len()
        invariant
            i <= inserted.len(),
            count <= i,
            count == count_true(inserted@.take(i as int)),
        decreases inserted.len() - i,
    {
        assert(inserted@.take(i + 1).drop_last() =~= inserted@.take(i as int));
        if inserted[i] {
            count += 1;
        }
        i += 1;
    }
    assert(inserted@.take(i as int) =~= inserted@);
    count
}

/// A row as it goes into the table, with the time of the change.
#[derive(Debug)]
pub struct StampedRow {
    pub qr_code: String,
    pub data: String,
    pub last_updated: String,
}

/// The row with the present time.
pub fn stamp_row(row: MachineRow) -> (stamped: StampedRow)
    ensures
        stamped.qr_code@ == row@.qr_code,
        stamped.data@ == row@.data,
        is_exact_stamp(stamped.last_updated@),
{
    StampedRow { qr_code: row.qr_code, data: row.data, last_updated: utc_now_text() }
}

/// The QR code that a query asks for, or the answer to a query that names none.
pub fn get_qr(query: &Vec<(String, String)>) -> (res: Result<String, Reply>)
    ensures
        match value_of(pairs(query@), "code"@) {
            Some(code) => res matches Ok(found) && found@ == code,
            None => res matches Err(reply) && reply@ == text_reply(400, "Missing 'code' query parameter"@),
        },
{
    match param(query, "code") {
        Some(code) => Ok(code.clone()),
        None => Err(Reply::text(400, "Missing 'code' query parameter")),
    }
}

/// The answer with the document of a machine, or, where the text in the table is none, with that.
pub open spec fn document_answer(document: Option<JsonTree>) -> ReplyView {
    match document {
        Some(tree) => json_reply(200, tree),
        None => text_reply(500, "Failed to parse JSON data"@),
    }
}

/// The answer to a query for a QR code, from the text that the table has for it.
pub open spec fn qr_answer(found: Option<Seq<char>>) -> ReplyView {
    match found {
        Some(text) => document_answer(json_parse(text)),
        None => text_reply(404, "QR code not found"@),
    }
}

/// The answer with the document of a machine, which its body is read as, or, where the text in
/// the table is none, with that.
pub fn document_reply(document: Option<serde_json::Value>) -> (reply: Reply)
    ensures
        match document {
            Some(value) => reply@ == document_answer(Some(json_tree(value))) && reads_as(
                reply@.body,
                json_tree(value),
            ),
            None => reply@ == document_answer(None),
        },
{
    match document {
        Some(value) => Reply::json(200, &value),
        None => Reply::text(500, "Failed to parse JSON data"),
    }
}

/// The answer to a query for a QR code, from the text that the table has for it. A body that
/// carries a document without fractions is read as that document.
pub fn qr_reply(found: Option<String>) -> (reply: Reply)
    ensures
        reply@ == qr_answer(opt_text(found)),
        found matches Some(text) ==> json_parse(text@) matches Some(tree) ==> no_fractions(tree) ==> json_parse(
            reply@.body,
        ) == Some(tree),
{
    match found {
        Some(text) => match json_from_str(text.as_str()) {
            Ok(value) => document_reply(Some(value)),
            Err(_) => document_reply(None),
        },
        None => Reply::text(404, "QR code not found"),
    }
}

/// The table of machines, by their QR codes.
pub type Table = Map<Seq<char>, Seq<char>>;

/// A table that takes a row where its QR code is new, and refuses it elsewhere, after the
/// steps of an update.
pub open spec fn table_after(table: Table, planned: Seq<PlannedView>) -> Table
    decreases planned.len(),
{
    if planned.len() == 0 {
        table
    } else {
        let before = table_after(table, planned.drop_last());
        match planned.last() {
            PlannedView::Clear => Map::empty(),
            PlannedView::Insert(row) => if before.contains_key(row.qr_code) {
                before
            } else {
                before.insert(row.qr_code, row.data)
            },
            _ => before,
        }
    }
}

/// Which of the rows that the steps put in such a table takes, in their order.
pub open spec fn accepted(table: Table, planned: Seq<PlannedView>) -> Seq<bool>
    decreases planned.len(),
{
    if planned.len() == 0 {
        Seq::empty()
    } else {
        let before = accepted(table, planned.drop_last());
        match planned.last() {
            PlannedView::Insert(row) => before.push(
                !table_after(table, planned.drop_last()).contains_key(row.qr_code),
            ),
            _ => before,
        }
    }
}

/// Whether a step puts in a row with this QR code.
pub open spec fn inserts(step: PlannedView, qr_code: Seq<char>) -> bool {
    step matches PlannedView::Insert(row) && row.qr_code == qr_code
}

/// Whether no step empties the table.
spec fn no_clear(planned: Seq<PlannedView>) -> bool {
    forall|j: int| 0 <= j < planned.len() ==> #[trigger] planned[j] !is Clear
}

/// Filling the table from files does not empty it.
proof fn lemma_files_do_not_clear(contents: Seq<Option<Seq<char>>>)
    ensures
        no_clear(files_plan(contents)),
    decreases contents.len(),
{
    if contents.len() > 0 {
        lemma_files_do_not_clear(contents.drop_last());
        let before = files_plan(contents.drop_last());
        assert forall|j: int| 0 <= j < files_plan(contents).len() implies #[trigger] files_plan(contents)[j]
            !is Clear by {
            if j < before.len() {
                assert(before[j] !is Clear);
            }
        }
    }
}

/// Where the table is emptied first, what it held does not matter.
proof fn lemma_clear_first(table: Table, planned: Seq<PlannedView>)
    ensures
        table_after(table, seq![PlannedView::Clear] + planned) == table_after(Map::empty(), planned),
        accepted(table, seq![PlannedView::Clear] + planned) == accepted(Map::empty(), planned),
    decreases planned.len(),
{
    let all = seq![PlannedView::Clear] + planned;
    if planned.len() == 0 {
        assert(all.drop_last() =~= Seq::empty());
        assert(accepted(table, all) == accepted(table, all.drop_last()));
    } else {
        assert(all.drop_last() =~= seq![PlannedView::Clear] + planned.drop_last());
        lemma_clear_first(table, planned.drop_last());
    }
}

/// Of the rows with one QR code the first is the one that stays in a table that was empty.
proof fn lemma_first_row_stays(planned: Seq<PlannedView>, i: int)
    requires
        no_clear(planned),
        0 <= i < planned.len(),
        planned[i] is Insert,
        forall|j: int| 0 <= j < i ==> !inserts(#[trigger] planned[j], planned[i]->Insert_0.qr_code),
    ensures
        table_after(Map::empty(), planned).contains_key(planned[i]->Insert_0.qr_code),
        table_after(Map::empty(), planned)[planned[i]->Insert_0.qr_code] == planned[i]->Insert_0.data,
    decreases planned.len(),
{
    let rest = planned.drop_last();
    let row = planned[i]->Insert_0;
    assert(planned[planned.len() - 1] !is Clear);
    assert forall|j: int| 0 <= j < rest.len() implies #[trigger] rest[j] !is Clear by {
        assert(planned[j] !is Clear);
    }
    if i < rest.len() {
        assert forall|j: int| 0 <= j < i implies !inserts(#[trigger] rest[j], rest[i]->Insert_0.qr_code) by {
            assert(rest[j] == planned[j]);
        }
        lemma_first_row_stays(rest, i);
    } else {
        assert forall|j: int| 0 <= j < rest.len() implies !inserts(#[trigger] rest[j], row.qr_code) by {
            assert(rest[j] == planned[j]);
        }
        lemma_code_is_new(rest, row.qr_code);
    }
}

/// A QR code that no step puts in is not in a table that was empty.
proof fn lemma_code_is_new(planned: Seq<PlannedView>, qr_code: Seq<char>)
    requires
        forall|j: int| 0 <= j < planned.len() ==> !inserts(#[trigger] planned[j], qr_code),
    ensures
        !table_after(Map::empty(), planned).contains_key(qr_code),
    decreases planned.len(),
{
    if planned.len() > 0 {
        let rest = planned.drop_last();
        assert forall|j: int| 0 <= j < rest.len() implies !inserts(#[trigger] rest[j], qr_code) by {
            assert(rest[j] == planned[j]);
        }
        lemma_code_is_new(rest, qr_code);
        assert(!inserts(planned[planned.len() - 1], qr_code));
    }
}

/// Where in the plan for files the step for a machine of one of them stands.
spec fn step_of(contents: Seq<Option<Seq<char>>>, file: int, k: int) -> int {
    files_plan(contents.take(file)).len() + k
}

/// Whether there is a machine with the number `k` in the file with the number `file`.
pub open spec fn has_machine(contents: Seq<Option<Seq<char>>>, file: int, k: int) -> bool {
    0 <= file < contents.len() && 0 <= k < machines_in(contents[file]).len()
}

/// The machine with the number `k` in the file with the number `file`.
pub open spec fn machine_at(contents: Seq<Option<Seq<char>>>, file: int, k: int) -> JsonTree {
    machines_in(contents[file])[k]
}

/// The step for a machine stands where [`step_of`] says.
proof fn lemma_step_of(contents: Seq<Option<Seq<char>>>, file: int, k: int)
    requires
        has_machine(contents, file, k),
    ensures
        0 <= step_of(contents, file, k) < files_plan(contents).len(),
        files_plan(contents)[step_of(contents, file, k)] == machine_plan(machine_at(contents, file, k)),
    decreases contents.len(),
{
    let rest = contents.drop_last();
    if file < rest.len() {
        lemma_step_of(rest, file, k);
        assert(rest.take(file) =~= contents.take(file));
    } else {
        assert(contents.take(file) =~= rest);
    }
}

/// A step that puts in a row stands for a machine with that QR code.
proof fn lemma_step_is_of_machine(contents: Seq<Option<Seq<char>>>, j: int, qr_code: Seq<char>) -> (place: (int, int))
    requires
        0 <= j < files_plan(contents).len(),
        inserts(files_plan(contents)[j], qr_code),
    ensures
        has_machine(contents, place.0, place.1),
        step_of(contents, place.0, place.1) == j,
        qr_code_of(machine_at(contents, place.0, place.1)) == Some(qr_code),
    decreases contents.len(),
{
    let rest = contents.drop_last();
    let before = files_plan(rest);
    if j < before.len() {
        let place = lemma_step_is_of_machine(rest, j, qr_code);
        assert(rest.take(place.0) =~= contents.take(place.0));
        place
    } else {
        let file = contents.len() - 1;
        let k = j - before.len();
        assert(contents.take(file) =~= rest);
        assert(files_plan(contents)[j] == file_plan(file, contents.last())[k]);
        (file, k)
    }
}

/// The plan for more files is no shorter.
proof fn lemma_plan_grows(contents: Seq<Option<Seq<char>>>, few: int, many: int)
    requires
        0 <= few <= many <= contents.len(),
    ensures
        files_plan(contents.take(few)).len() <= files_plan(contents.take(many)).len(),
    decreases many - few,
{
    if few < many {
        lemma_plan_grows(contents, few, many - 1);
        assert(contents.take(many).drop_last() =~= contents.take(many - 1));
    }
}

/// Of two machines, the one whose step comes first stands in an earlier file, or earlier in the
/// same file.
proof fn lemma_steps_in_order(contents: Seq<Option<Seq<char>>>, file: int, k: int, other: int, l: int)
    requires
        has_machine(contents, file, k),
        has_machine(contents, other, l),
        step_of(contents, other, l) < step_of(contents, file, k),
    ensures
        other < file || (other == file && l < k),
{
    if other > file {
        lemma_plan_grows(contents, file + 1, other);
        assert(contents.take(file + 1).drop_last() =~= contents.take(file));
        assert(contents.take(file + 1).last() == contents[file]);
    }
}

/// An update leaves the table as it is where there is no directory of rooms. Elsewhere the table
/// holds after it what filling an empty table from the files gives: no row from before is left.
pub proof fn law_update_replaces_the_table(table: Table, there: bool, is_dir: bool, contents: Seq<Option<Seq<char>>>)
    ensures
        !(there && is_dir) ==> table_after(table, update_plan(there, is_dir, contents)) == table,
        there && is_dir ==> table_after(table, update_plan(there, is_dir, contents)) == table_after(
            Map::empty(),
            files_plan(contents),
        ),
{
    lemma_clear_first(table, files_plan(contents));
}

/// All steps are tried where none of them empties the table.
proof fn lemma_all_tried(planned: Seq<PlannedView>, done: Seq<bool>)
    requires
        no_clear(planned),
        done.len() == planned.len(),
    ensures
        steps_tried(planned, done) == planned.len(),
    decreases planned.len(),
{
    if planned.len() > 0 {
        let rest = planned.drop_first();
        assert(planned[0] !is Clear);
        assert forall|j: int| 0 <= j < rest.len() implies #[trigger] rest[j] !is Clear by {
            assert(planned[j + 1] !is Clear);
        }
        lemma_all_tried(rest, done.drop_first());
    }
}

/// An update whose first step, the emptying of the table, cannot be done ends there. One whose first
/// step is done tries every step, whichever rows are refused.
pub proof fn law_only_a_failed_clearing_ends_an_update(contents: Seq<Option<Seq<char>>>, done: Seq<bool>)
    requires
        done.len() == update_plan(true, true, contents).len(),
    ensures
        steps_tried(update_plan(true, true, contents), done) == if done[0] {
            update_plan(true, true, contents).len() as int
        } else {
            1
        },
{
    let planned = update_plan(true, true, contents);
    assert(planned.drop_first() =~= files_plan(contents));
    lemma_files_do_not_clear(contents);
    if done[0] {
        lemma_all_tried(files_plan(contents), done.drop_first());
    }
}

/// Whether a file gives no machines because it could not be read, or is no list.
pub open spec fn is_bad_file(content: Option<Seq<char>>) -> bool {
    content matches Some(text) ==> json_parse_list(text) is None
}

/// The steps of two lists, one list after the other.
proof fn lemma_table_after_two(table: Table, first: Seq<PlannedView>, second: Seq<PlannedView>)
    ensures
        table_after(table, first + second) == table_after(table_after(table, first), second),
        accepted(table, first + second) == accepted(table, first) + accepted(table_after(table, first), second),
    decreases second.len(),
{
    let all = first + second;
    if second.len() == 0 {
        assert(all =~= first);
        assert(accepted(table, first) + accepted(table_after(table, first), second) =~= accepted(table, first));
    } else {
        assert(all.drop_last() =~= first + second.drop_last());
        lemma_table_after_two(table, first, second.drop_last());
        assert(accepted(table, all) =~= accepted(table, first) + accepted(table_after(table, first), second));
    }
}

/// What a file does to a table does not depend on its number, and a bad file does nothing.
proof fn lemma_file_on_table(table: Table, file: int, other: int, content: Option<Seq<char>>)
    ensures
        table_after(table, file_plan(file, content)) == table_after(table, file_plan(other, content)),
        accepted(table, file_plan(file, content)) == accepted(table, file_plan(other, content)),
        is_bad_file(content) ==> table_after(table, file_plan(file, content)) == table && accepted(
            table,
            file_plan(file, content),
        ) == Seq::<bool>::empty(),
{
    if is_bad_file(content) {
        let here = file_plan(file, content);
        let there = file_plan(other, content);
        assert(here.drop_last() =~= Seq::empty());
        assert(there.drop_last() =~= Seq::empty());
        assert(table_after(table, here) == table_after(table, here.drop_last()));
        assert(table_after(table, there) == table_after(table, there.drop_last()));
        assert(accepted(table, here) == accepted(table, here.drop_last()));
        assert(accepted(table, there) == accepted(table, there.drop_last()));
    }
}

/// Files do to a table what they do without a bad one among them.
proof fn lemma_bad_file_on_table(table: Table, contents: Seq<Option<Seq<char>>>, file: int)
    requires
        0 <= file < contents.len(),
        is_bad_file(contents[file]),
    ensures
        table_after(table, files_plan(contents)) == table_after(table, files_plan(contents.remove(file))),
        accepted(table, files_plan(contents)) == accepted(table, files_plan(contents.remove(file))),
    decreases contents.len(),
{
    let rest = contents.drop_last();
    let fewer = contents.remove(file);
    let last = contents.len() - 1;
    lemma_table_after_two(table, files_plan(rest), file_plan(last, contents.last()));
    let middle = table_after(table, files_plan(rest));
    lemma_file_on_table(middle, last, last - 1, contents.last());
    if file == last {
        assert(fewer =~= rest);
        assert(accepted(table, files_plan(rest)) + Seq::<bool>::empty() =~= accepted(table, files_plan(rest)));
    } else {
        lemma_bad_file_on_table(table, rest, file);
        assert(fewer.drop_last() =~= rest.remove(file));
        assert(fewer.last() == contents.last());
        lemma_table_after_two(table, files_plan(rest.remove(file)), file_plan(last - 1, contents.last()));
    }
}

/// A file that cannot be read, or is no list, is as good as absent: an update leaves the same table,
/// and takes the same rows, without it.
pub proof fn law_bad_file_is_as_good_as_absent(table: Table, contents: Seq<Option<Seq<char>>>, file: int)
    requires
        0 <= file < contents.len(),
        is_bad_file(contents[file]),
    ensures
        table_after(table, update_plan(true, true, contents)) == table_after(
            table,
            update_plan(true, true, contents.remove(file)),
        ),
        accepted(table, update_plan(true, true, contents)) == accepted(
            table,
            update_plan(true, true, contents.remove(file)),
        ),
{
    lemma_clear_first(table, files_plan(contents));
    lemma_clear_first(table, files_plan(contents.remove(file)));
    lemma_bad_file_on_table(Map::empty(), contents, file);
}

/// After an update of any table, a QR code that no machine of the files has is answered with 404,
/// also where the table had it before.
pub proof fn law_unknown_code_is_not_found(table: Table, contents: Seq<Option<Seq<char>>>, qr_code: Seq<char>)
    requires
        forall|file: int, k: int| #[trigger]
            has_machine(contents, file, k) ==> qr_code_of(machine_at(contents, file, k)) != Some(qr_code),
    ensures
        qr_answer(table_after(table, update_plan(true, true, contents)).get(qr_code)) == text_reply(
            404,
            "QR code not found"@,
        ),
{
    let planned = files_plan(contents);
    assert forall|j: int| 0 <= j < planned.len() implies !inserts(#[trigger] planned[j], qr_code) by {
        if inserts(planned[j], qr_code) {
            let place = lemma_step_is_of_machine(contents, j, qr_code);
            assert(has_machine(contents, place.0, place.1));
        }
    }
    lemma_code_is_new(planned, qr_code);
    lemma_clear_first(table, planned);
}

/// After an update of any table, the QR code of a machine that holds no number but integers is
/// answered with the machine's document, and the answer is read as that document, where no
/// machine before it, in an earlier file or earlier in its own, has the same code. That the texts
/// in the table are read back is what [`plan_update`] promises of each of its files.
pub proof fn law_machine_is_found(
    table: Table,
    contents: Seq<Option<Seq<char>>>,
    file: int,
    k: int,
    qr_code: Seq<char>,
)
    requires
        has_machine(contents, file, k),
        file_reads_back(contents[file]),
        no_fractions(machine_at(contents, file, k)),
        qr_code_of(machine_at(contents, file, k)) == Some(qr_code),
        forall|other: int, l: int| #[trigger]
            has_machine(contents, other, l) && (other < file || (other == file && l < k)) ==> qr_code_of(
                machine_at(contents, other, l),
            ) != Some(qr_code),
    ensures
        ({
            let answer = qr_answer(table_after(table, update_plan(true, true, contents)).get(qr_code));
            &&& answer == json_reply(200, machine_at(contents, file, k))
            &&& json_parse(answer.body) == Some(machine_at(contents, file, k))
        }),
{
    let planned = files_plan(contents);
    let step = step_of(contents, file, k);
    lemma_step_of(contents, file, k);
    lemma_files_do_not_clear(contents);
    assert forall|j: int| 0 <= j < step implies !inserts(#[trigger] planned[j], qr_code) by {
        if inserts(planned[j], qr_code) {
            let place = lemma_step_is_of_machine(contents, j, qr_code);
            lemma_steps_in_order(contents, file, k, place.0, place.1);
            assert(has_machine(contents, place.0, place.1));
        }
    }
    lemma_first_row_stays(planned, step);
    lemma_clear_first(table, planned);
    assert(machines_in(contents[file])[k] == machine_at(contents, file, k));
}

/// As many rows are counted as put in as filling an empty table leaves in it.
proof fn lemma_count_is_size(planned: Seq<PlannedView>)
    requires
        no_clear(planned),
    ensures
        table_after(Map::empty(), planned).dom().finite(),
        count_true(accepted(Map::empty(), planned)) == table_after(Map::empty(), planned).dom().len(),
    decreases planned.len(),
{
    if planned.len() > 0 {
        let rest = planned.drop_last();
        assert(planned[planned.len() - 1] !is Clear);
        assert forall|j: int| 0 <= j < rest.len() implies #[trigger] rest[j] !is Clear by {
            assert(planned[j] !is Clear);
        }
        lemma_count_is_size(rest);
        if let PlannedView::Insert(row) = planned.last() {
            let before = accepted(Map::empty(), rest);
            let taken = !table_after(Map::empty(), rest).contains_key(row.qr_code);
            assert(before.push(taken).drop_last() =~= before);
        }
    }
}

/// As many rows are counted as put in as an update leaves in the table: one for each QR code.
pub proof fn law_count_is_size(table: Table, contents: Seq<Option<Seq<char>>>)
    ensures
        table_after(table, update_plan(true, true, contents)).dom().finite(),
        count_true(accepted(table, update_plan(true, true, contents))) == table_after(
            table,
            update_plan(true, true, contents),
        ).dom().len(),
{
    lemma_files_do_not_clear(contents);
    lemma_count_is_size(files_plan(contents));
    lemma_clear_first(table, files_plan(contents));
}

/// The machines that were archived for a room are the ones that an update of the table reads
/// out of the room's file: its name is that of a JSON file, and what it holds is planned
/// machine by machine. `text` is what the archiver keeps for the room, whose document holds no
/// number but integers.
pub proof fn law_archived_room_is_read(
    location_id: Seq<char>,
    room_id: Seq<char>,
    text: Seq<char>,
    machines: Seq<JsonTree>,
    file: int,
)
    requires
        room_id.len() > 0,
        reads_back(
            ArchiveStepView::Store { path: room_path(location_id, room_id), text },
            Some(JsonTree::Arr(machines)),
        ),
        no_fractions(JsonTree::Arr(machines)),
    ensures
        room_path(location_id, room_id).last() == file_name(room_id),
        has_json_extension(file_name(room_id)),
        file_plan(file, Some(text)) == machines.map_values(|machine: JsonTree| machine_plan(machine)),
{
    reveal_strlit(".json");
    let name = file_name(room_id);
    assert(".json"@.len() == 5);
    assert(name.subrange(name.len() - 5, name.len() as int) =~= ".json"@);
}

/// The older copies of a file are no JSON files by their names: an update of the table does
/// not read them.
pub proof fn law_copies_are_not_read(base: Seq<char>, i: int)
    requires
        1 <= i <= COPIES,
    ensures
        !has_json_extension(old_name(base, i)),
{
    let name = old_name(base, i);
    reveal_strlit(".json");
    reveal_strlit("1");
    reveal_strlit("2");
    reveal_strlit("3");
    reveal_strlit("4");
    reveal_strlit("5");
    reveal_strlit("6");
    reveal_strlit("7");
    assert(numeral(i).len() == 1);
    assert(name.last() == numeral(i)[0]);
    assert(numeral(i)[0] != 'n');
    if has_json_extension(name) {
        let end = name.subrange(name.len() - 5, name.len() as int);
        assert(end[4] == name.last());
        assert(".json"@[4] == 'n');
    }
}

/// A machine that is an object with a string under `qrCodeId` is put in under exactly that string,
/// with its own text, whatever else it holds; any other machine is not put in.
pub proof fn law_machine_is_put_in_under_its_code(machine: serde_json::Value, step: Planned)
    requires
        step@ == machine_plan(json_tree(machine)),
    ensures
        json_tree(machine) matches JsonTree::Obj(members) ==> (members.contains_key("qrCodeId"@) ==> (
        members["qrCodeId"@] matches JsonTree::Str(code) ==> {
            &&& step matches Planned::Insert(row)
            &&& row.qr_code@ == code
            &&& row.data@ == json_text(json_tree(machine))
        })),
        !(json_tree(machine) matches JsonTree::Obj(members) && members.contains_key("qrCodeId"@)
            && members["qrCodeId"@] is Str) ==> (step matches Planned::NoCode(document) && document@ == json_text(
            json_tree(machine),
        )),
{
}

/// The code of a machine is the string under its `qrCodeId`.
pub proof fn law_code_of_a_machine(machine: JsonTree, code: Seq<char>)
    ensures
        qr_code_of(machine) == Some(code) <==> (machine matches JsonTree::Obj(members) && members.contains_key(
            "qrCodeId"@,
        ) && members["qrCodeId"@] == JsonTree::Str(code)),
        qr_code_of(machine) is None <==> !(machine matches JsonTree::Obj(members) && members.contains_key("qrCodeId"@)
            && members["qrCodeId"@] is Str),
{
}

/// The machines of a file are the items of the list that its text is read as; a file that could not
/// be read, or is no list, has none.
pub proof fn law_machines_of_a_file(
    contents: Seq<Option<Seq<char>>>,
    file: int,
    k: int,
    text: Seq<char>,
    machines: Seq<JsonTree>,
)
    requires
        0 <= file < contents.len(),
    ensures
        contents[file] == Some(text) && json_parse(text) == Some(JsonTree::Arr(machines)) ==> {
            &&& machines_in(contents[file]) == machines
            &&& has_machine(contents, file, k) <==> 0 <= k < machines.len()
            &&& has_machine(contents, file, k) ==> machine_at(contents, file, k) == machines[k]
        },
        !(contents[file] matches Some(held) && json_parse(held) matches Some(JsonTree::Arr(_))) ==> !has_machine(
            contents,
            file,
            k,
        ),
{
}

/// What is done with a file: a step for each machine, in their order; and one that tells why there
/// are none where it could not be read, or is no list.
pub proof fn law_steps_for_a_file(file: int, text: Seq<char>, machines: Seq<JsonTree>)
    ensures
        file_plan(file, None) == seq![PlannedView::Unreadable(file)],
        !(json_parse(text) matches Some(JsonTree::Arr(_))) ==> file_plan(file, Some(text)) == seq![
            PlannedView::NotJson(file),
        ],
        json_parse(text) == Some(JsonTree::Arr(machines)) ==> {
            &&& file_plan(file, Some(text)).len() == machines.len()
            &&& forall|k: int|
                0 <= k < machines.len() ==> #[trigger] file_plan(file, Some(text))[k] == machine_plan(machines[k])
        },
{
}

/// Files are taken in turn: the plan for one file more is the plan for those before it and then the
/// steps for that file. An update first empties the table, and does nothing at all where the
/// directory of rooms is missing, or is no directory.
pub proof fn law_files_are_taken_in_turn(contents: Seq<Option<Seq<char>>>, next: Option<Seq<char>>)
    ensures
        files_plan(Seq::empty()) == Seq::<PlannedView>::empty(),
        files_plan(contents.push(next)) == files_plan(contents) + file_plan(contents.len() as int, next),
        update_plan(true, true, contents) == seq![PlannedView::Clear] + files_plan(contents),
        update_plan(false, true, contents).len() == 0,
        update_plan(true, false, contents).len() == 0,
        update_plan(false, false, contents).len() == 0,
{
    assert(contents.push(next).drop_last() =~= contents);
}

/// What steps and files are: one for one, in their order.
pub proof fn law_steps_and_files(planned: Seq<Planned>, files: Seq<Option<String>>)
    ensures
        steps(planned).len() == planned.len(),
        forall|i: int| 0 <= i < planned.len() ==> #[trigger] steps(planned)[i] == planned[i]@,
        contents_of(files).len() == files.len(),
        forall|i: int|
            0 <= i < files.len() ==> (files[i] matches Some(text) ==> #[trigger] contents_of(files)[i] == Some(text@)),
        forall|i: int| 0 <= i < files.len() && files[i] is None ==> #[trigger] contents_of(files)[i] is None,
        forall|i: int|
            0 <= i < planned.len() ==> {
                &&& (#[trigger] planned[i]) is Clear <==> planned[i]@ is Clear
                &&& planned[i] matches Planned::NotJson(file) ==> planned[i]@ == PlannedView::NotJson(file as int)
                &&& planned[i] matches Planned::Unreadable(file) ==> planned[i]@ == PlannedView::Unreadable(file as int)
            },
{
}

/// After an update of any table, the string under `qrCodeId` of a machine of a file's list is
/// answered with the status 200 and the machine's own document, where no machine before it has that
/// code, and the machine's text is read as the machine.
pub proof fn law_code_leads_to_its_machine(
    table: Table,
    contents: Seq<Option<Seq<char>>>,
    file: int,
    text: Seq<char>,
    machines: Seq<JsonTree>,
    k: int,
    members: Map<Seq<char>, JsonTree>,
    code: Seq<char>,
    reply: Reply,
)
    requires
        0 <= file < contents.len(),
        contents[file] == Some(text),
        json_parse(text) == Some(JsonTree::Arr(machines)),
        0 <= k < machines.len(),
        machines[k] == JsonTree::Obj(members),
        members.contains_key("qrCodeId"@),
        members["qrCodeId"@] == JsonTree::Str(code),
        json_parse(json_text(machines[k])) == Some(machines[k]),
        forall|other: int, l: int| #[trigger]
            has_machine(contents, other, l) && (other < file || (other == file && l < k)) ==> qr_code_of(
                machine_at(contents, other, l),
            ) != Some(code),
        reply@ == qr_answer(table_after(table, update_plan(true, true, contents)).get(code)),
    ensures
        table_after(table, update_plan(true, true, contents)).get(code) == Some(json_text(machines[k])),
        reply.status == 200,
        reply.content == Content::Json,
        reply.body@ == json_text(machines[k]),
        json_parse(reply.body@) == Some(JsonTree::Obj(members)),
{
    let planned = files_plan(contents);
    let step = step_of(contents, file, k);
    assert(machine_at(contents, file, k) == machines[k]);
    lemma_step_of(contents, file, k);
    lemma_files_do_not_clear(contents);
    assert forall|j: int| 0 <= j < step implies !inserts(#[trigger] planned[j], code) by {
        if inserts(planned[j], code) {
            let place = lemma_step_is_of_machine(contents, j, code);
            lemma_steps_in_order(contents, file, k, place.0, place.1);
            assert(has_machine(contents, place.0, place.1));
        }
    }
    lemma_first_row_stays(planned, step);
    lemma_clear_first(table, planned);
}

/// What a query for a code is answered: the document in the table, or that it is none, or that there
/// is none.
pub proof fn law_query_answers(found: Option<String>, reply: Reply)
    requires
        reply@ == qr_answer(opt_text(found)),
    ensures
        found matches Some(text) ==> (json_parse(text@) matches Some(tree) ==> reply.status == 200 && reply.content
            == Content::Json && reply.body@ == json_text(tree)),
        found is Some && json_parse(found->0@) is None ==> reply.status == 500 && reply.content == Content::Text
            && reply.body@ == "Failed to parse JSON data"@,
        found is None ==> reply.status == 404 && reply.content == Content::Text && reply.body@ == "QR code not found"@,
{
}

/// The rows that went in are as many as there are successes.
pub proof fn law_successes_are_counted(inserted: Seq<bool>)
    ensures
        count_true(inserted) == inserted.filter(|one: bool| one).len(),
    decreases inserted.len(),
{
    reveal(Seq::filter);
    if inserted.len() > 0 {
        law_successes_are_counted(inserted.drop_last());
    }
}

/// An update ends after a step if and only if the step was to empty the table and could not be done.
pub proof fn law_what_ends_an_update(step: Planned, done: bool)
    ensures
        !continues(step@, done) <==> step is Clear && !done,
{
}

/// A table that takes a row where its code is new, and refuses it elsewhere, one step after the
/// other.
pub proof fn law_table_takes_new_codes(table: Table, planned: Seq<PlannedView>, step: PlannedView)
    ensures
        table_after(table, Seq::empty()) == table,
        step is Clear ==> table_after(table, planned.push(step)) == Map::<Seq<char>, Seq<char>>::empty(),
        step matches PlannedView::Insert(row) ==> {
            let before = table_after(table, planned);
            &&& before.contains_key(row.qr_code) ==> table_after(table, planned.push(step)) == before
            &&& !before.contains_key(row.qr_code) ==> table_after(table, planned.push(step)) == before.insert(
                row.qr_code,
                row.data,
            )
        },
        step !is Clear && step !is Insert ==> table_after(table, planned.push(step)) == table_after(table, planned),
{
    assert(planned.push(step).drop_last() =~= planned);
}

} // verus!
