//! Pages of the command documentation.
use crate::text;
use vstd::prelude::*;

verus! {

/// The file a command's page is written to: its full name with spaces
/// made underscores, and `.md`.
pub open spec fn doc_file_name(prefix: Seq<char>) -> Seq<char> {
    text::replace_char(prefix, ' ', "_"@) + ".md"@
}

/// The title of a command's page: its name after `hermitgrab `, or
/// `hermitgrab` for the program itself.
pub open spec fn doc_title(prefix: Seq<char>) -> Seq<char> {
    if text::starts_with(prefix, "hermitgrab "@) {
        prefix.skip(11)
    } else {
        "hermitgrab"@
    }
}

/// The page of a command: a front matter with title, weight (at least 1)
/// and an open sidebar, then the command's help as a text block.
pub open spec fn doc_page_text(prefix: Seq<char>, base_weight: u64, help: Seq<char>) -> Seq<char> {
    let weight: nat = if base_weight > 1 {
        base_weight as nat
    } else {
        1
    };
    "---\ntitle: "@ + doc_title(prefix) + "\ntype: docs\nweight: "@ + text::dec_digits(weight)
        + "\nsidebar:\n  open: true\n---\n```text\n"@ + help + "\n```\n    "@
}

/// The file name and text of the page of the command `prefix` (see
/// `doc_file_name` and `doc_page_text`).
pub fn doc_page(prefix: &str, base_weight: u64, help: &str) -> (r: (String, String))
    ensures
        r.0@ == doc_file_name(prefix@),
        r.1@ == doc_page_text(prefix@, base_weight, help@),
{
    let mut file = text::replace_char_str(prefix, ' ', "_");
    text::push_str(&mut file, ".md");
    proof {
        reveal_strlit("hermitgrab ");
    }
    let title = if text::starts_with_str(prefix, "hermitgrab ") {
        let cs = text::chars_of(prefix);
        text::string_from_range(&cs, 11, cs.len())
    } else {
        text::owned("hermitgrab")
    };
    let weight = if base_weight > 1 {
        base_weight
    } else {
        1
    };
    let mut page = text::owned("---\ntitle: ");
    text::push_str(&mut page, title.as_str());
    text::push_str(&mut page, "\ntype: docs\nweight: ");
    let w = text::u64_text(weight);
    text::push_str(&mut page, w.as_str());
    text::push_str(&mut page, "\nsidebar:\n  open: true\n---\n```text\n");
    text::push_str(&mut page, help);
    text::push_str(&mut page, "\n```\n    ");
    (file, page)
}

/// How much the weight of a subcommand grows per position, by depth:
/// 1000, 100, 10, then 1.
pub open spec fn weight_step(depth: u64) -> u64 {
    if depth == 0 {
        1000
    } else if depth == 1 {
        100
    } else if depth == 2 {
        10
    } else {
        1
    }
}

/// The weight of the `idx`-th (from 0) subcommand of a command of the given
/// weight and depth.
pub fn child_weight(base_weight: u64, idx: u64, depth: u64) -> (r: u64)
    requires
        base_weight + (idx + 1) * weight_step(depth) <= u64::MAX,
    ensures
        r == base_weight + (idx + 1) * weight_step(depth),
{
    let step: u64 = if depth == 0 {
        1000
    } else if depth == 1 {
        100
    } else if depth == 2 {
        10
    } else {
        1
    };
    assert((idx + 1) * step <= u64::MAX - base_weight) by (nonlinear_arith)
        requires
            base_weight + (idx + 1) * step <= u64::MAX,
    ;
    assert(idx + 1 <= u64::MAX) by (nonlinear_arith)
        requires
            base_weight + (idx + 1) * step <= u64::MAX,
            step >= 1,
    ;
    base_weight + (idx + 1) * step
}

} // verus!
