//! Labels of tool calls and previews of edits.
use crate::json::{Json, Tree};
use crate::lines::{lines, rows, split_lines};
use crate::number::{decimal, decimal_text};
use crate::text::{
    after_prefix, cat2, cat3, chars_of, clean_prefix, copy, find, first_n, has_control, is_control,
    lemma_clean_text,
    lemma_without_controls, position, same, strip_prefix, text_of, without_controls,
};
use crate::ui::{info_of, Ui};
use vstd::prelude::*;

verus! {

/// How many lines of a diff are shown.
pub const MAX_LINES: usize = 40;

/// At most 70 characters of a detail, none of them a control character.
pub open spec fn safe_detail_of(text: Seq<char>) -> Seq<char> {
    first_n(without_controls(text), 70)
}

pub fn safe_detail(text: &str) -> (out: String)
    ensures
        out@ == safe_detail_of(text@),
{
    clean_prefix(text, 70)
}

/// At most 180 characters of a line of a diff, none of them a control character.
pub open spec fn safe_diff_line_of(line: Seq<char>) -> Seq<char> {
    first_n(without_controls(line), 180)
}

pub fn safe_diff_line(line: &str) -> (out: String)
    ensures
        out@ == safe_diff_line_of(line@),
{
    clean_prefix(line, 180)
}

/// The file that a call names, by either of its two keys.
pub open spec fn named_file(args: Tree) -> Option<Seq<char>> {
    match args.text_at("path"@) {
        Some(path) => Some(path),
        None => args.text_at("filePath"@),
    }
}

/// The label of a call: the tool, and the file of a tool that works on one.
/// Nothing else of the arguments is shown.
pub open spec fn tool_label_of(name: Seq<char>, args: Tree) -> Seq<char> {
    let name = safe_detail_of(name);
    if (name == "read"@ || name == "write"@ || name == "edit"@) && named_file(args) is Some {
        name + " · "@ + safe_detail_of(named_file(args)->0)
    } else {
        name
    }
}

pub fn tool_label(name: &str, args: &Json) -> (out: String)
    ensures
        out@ == tool_label_of(name@, args@),
{
    let name = safe_detail(name);
    if same(name.as_str(), "read") || same(name.as_str(), "write") || same(name.as_str(), "edit") {
        if let Some(path) = args.text_at("path") {
            return cat3(name.as_str(), " · ", safe_detail(path).as_str());
        }
        if let Some(path) = args.text_at("filePath") {
            return cat3(name.as_str(), " · ", safe_detail(path).as_str());
        }
    }
    name
}

/// The file in a label.
pub open spec fn label_path_of(label: Seq<char>) -> Seq<char> {
    match find(label, " · "@) {
        Some(i) => label.skip(i + " · "@.len()),
        None => ""@,
    }
}

pub fn label_path(label: &str) -> (out: String)
    ensures
        out@ == label_path_of(label@),
{
    let chars = chars_of(label);
    let mark = chars_of(" · ");
    match position(chars.as_slice(), mark.as_slice()) {
        Some(i) => {
            let n: usize = chars.len();
            let rest = vstd::slice::slice_subrange(chars.as_slice(), i + mark.len(), n);
            assert(rest@ =~= label@.skip(i + mark@.len()));
            text_of(rest)
        },
        None => copy(""),
    }
}

/// The shown lines of a diff, each indented.
pub open spec fn diff_rows(ls: Seq<Seq<char>>) -> Seq<char>
    decreases ls.len(),
{
    if ls.len() == 0 {
        ""@
    } else {
        diff_rows(ls.drop_last()) + "    "@ + safe_diff_line_of(ls.last()) + "\n"@
    }
}

/// The diff of an edit, for the file of `label`. Only the tool's own result
/// supplies one; an edit without it shows nothing.
pub open spec fn edit_diff_of(ui: Ui, label: Seq<char>, result: Tree) -> Seq<char> {
    match result.at("details"@).text_at("diff"@) {
        Some(diff) => if diff.len() == 0 {
            ""@
        } else {
            let path = match strip_prefix(label, "edit · "@) {
                Some(path) => path,
                None => label,
            };
            let ls = lines(diff);
            let shown = info_of(ui, "diff · "@ + path) + diff_rows(first_n(ls, MAX_LINES as nat));
            if ls.len() > MAX_LINES {
                shown + info_of(
                    ui,
                    "… "@ + decimal((ls.len() - MAX_LINES) as nat) + " more diff lines"@,
                )
            } else {
                shown
            }
        },
        None => ""@,
    }
}

pub fn show_edit_diff(ui: &Ui, label: &str, result: &Json) -> (out: String)
    ensures
        out@ == edit_diff_of(*ui, label@, result@),
{
    let diff = match result.at("details").text_at("diff") {
        Some(diff) => chars_of(diff),
        None => { return copy(""); },
    };
    if diff.len() == 0 {
        return copy("");
    }
    let chars = chars_of(label);
    let path = match after_prefix(chars.as_slice(), "edit · ") {
        Some(path) => text_of(path),
        None => copy(label),
    };
    let ls = split_lines(diff.as_slice());
    let mut shown = copy("");
    let mut i: usize = 0;
    assert(rows(ls@).take(0) =~= Seq::<Seq<char>>::empty());
    while i < ls.len() && i < MAX_LINES
        invariant
            i <= ls@.len(),
            i <= MAX_LINES,
            shown@ == diff_rows(rows(ls@).take(i as int)),
        decreases ls@.len() - i,
    {
        proof {
            assert(rows(ls@).take(i + 1).drop_last() =~= rows(ls@).take(i as int));
        }
        let row = safe_diff_line(text_of(ls[i].as_slice()).as_str());
        shown.append("    ");
        shown.append(row.as_str());
        shown.append("\n");
        i = i + 1;
    }
    assert(rows(ls@).take(i as int) =~= first_n(rows(ls@), MAX_LINES as nat));
    let mut out = cat2(
        ui.info(cat2("diff · ", path.as_str()).as_str()).as_str(),
        shown.as_str(),
    );
    if ls.len() > MAX_LINES {
        let rest = decimal_text((ls.len() - MAX_LINES) as u64);
        out.append(ui.info(cat3("… ", rest.as_str(), " more diff lines").as_str()).as_str());
    }
    out
}

// ---------------------------------------------------------------------------
// Laws
// ---------------------------------------------------------------------------

/// Of a call of any tool but `read`, `write` and `edit` only the name is
/// shown: a shell command never is.
pub proof fn law_only_file_tools_show_arguments(name: Seq<char>, args: Tree)
    requires
        safe_detail_of(name) != "read"@,
        safe_detail_of(name) != "write"@,
        safe_detail_of(name) != "edit"@,
    ensures
        tool_label_of(name, args) == safe_detail_of(name),
{
}

/// A label holds no control character.
pub proof fn law_labels_hold_no_controls(name: Seq<char>, args: Tree)
    ensures
        forall|i: int|
            0 <= i < tool_label_of(name, args).len() ==> !is_control(
                #[trigger] tool_label_of(name, args)[i],
            ),
{
    lemma_without_controls(name);
    reveal_strlit(" · ");
    if named_file(args) is Some {
        lemma_without_controls(named_file(args)->0);
    }
}

/// An edit whose result carries no diff shows none.
pub proof fn law_no_diff_without_result(ui: Ui, label: Seq<char>, result: Tree)
    requires
        result.at("details"@).text_at("diff"@) is None,
    ensures
        edit_diff_of(ui, label, result).len() == 0,
{
    reveal_strlit("");
}

/// The label of a tool that works on a file names the tool and the file.
pub proof fn law_labels_name_the_file(name: Seq<char>, args: Tree, path: Seq<char>)
    requires
        name == "read"@ || name == "write"@ || name == "edit"@,
        args.says("path"@, path),
        path.len() <= 70,
        !has_control(path),
    ensures
        tool_label_of(name, args) == name + " · "@ + path,
{
    reveal_strlit("read");
    reveal_strlit("write");
    reveal_strlit("edit");
    lemma_clean_text(path);
    assert forall|i: int| 0 <= i < name.len() implies !is_control(#[trigger] name[i]) by {}
    lemma_clean_text(name);
}

/// Of a diff every line that is shown has a row of its own, indented, and all
/// rows are in order.
pub proof fn law_diff_lines_have_their_rows(ls: Seq<Seq<char>>, line: Seq<char>)
    ensures
        diff_rows(ls.push(line)) == diff_rows(ls) + "    "@ + safe_diff_line_of(line) + "\n"@,
        diff_rows(Seq::empty()) == ""@,
        line.len() <= 180 && !has_control(line) ==> safe_diff_line_of(line) == line,
{
    assert(ls.push(line).drop_last() =~= ls);
    if !has_control(line) {
        lemma_clean_text(line);
    }
}

/// A short diff is shown with all of its lines below the name of the file; of a
/// long one the first lines are shown, and the others are counted.
pub proof fn law_diffs_are_shown_below_the_file(
    ui: Ui,
    path: Seq<char>,
    result: Tree,
    diff: Seq<char>,
)
    requires
        result.at("details"@).says("diff"@, diff),
        diff.len() > 0,
    ensures
        lines(diff).len() <= 40 ==> edit_diff_of(ui, "edit · "@ + path, result) == info_of(
            ui,
            "diff · "@ + path,
        ) + diff_rows(lines(diff)),
        lines(diff).len() > 40 ==> edit_diff_of(ui, "edit · "@ + path, result) == info_of(
            ui,
            "diff · "@ + path,
        ) + diff_rows(lines(diff).take(40)) + info_of(
            ui,
            "… "@ + decimal((lines(diff).len() - 40) as nat) + " more diff lines"@,
        ),
{
    let label = "edit · "@ + path;
    assert(label.subrange(0, "edit · "@.len() as int) =~= "edit · "@);
    assert(label.skip("edit · "@.len() as int) =~= path);
}

/// The file in a label is what stands behind the name of the tool.
pub proof fn law_labels_hold_the_file(name: Seq<char>, path: Seq<char>)
    requires
        find(name + " · "@ + path, " · "@) == Some(name.len() as int),
    ensures
        label_path_of(name + " · "@ + path) == path,
{
    let label = name + " · "@ + path;
    assert(label.skip(name.len() as int + " · "@.len() as int) =~= path);
}

/// A label without a file holds none.
pub proof fn law_labels_without_a_file(label: Seq<char>)
    requires
        find(label, " · "@) is None,
    ensures
        label_path_of(label).len() == 0,
{
    reveal_strlit("");
}

}
