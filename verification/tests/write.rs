use enum_ts::write::{make_region, region_bounds, region_pattern_text, splice};
use enum_ts::{
    fingerprint, generate, is_typescript_file, make_edit, make_edit_offsets, parse, rewrite,
    ParseError, Position,
};

const SOURCE: &str = "\ntype T = Enum<{\n    A: X;\n}>;\n";

const CODE: &str = "namespace T {\n    type A = X;\n    function A(contents: A): { A: A } {\n        return { A: contents };\n    }\n    function isA(item: T): item is { A: A } {\n        return item != null && \"A\" in item;\n    }\n    const unexpected = \"Unexpected Enum variant for T\";\n    export function apply<R>(fns: {\n        A(content: A): R;\n    }): (value: T) => R {\n        return function matchTApply(item) {\n            return \"A\" in item\n                ? fns.A(item.A)\n                : (console.assert(false, unexpected, item) as never);\n        };\n    }\n    export function match<R>(\n        value: T,\n        fns: {\n            A(content: A): R;\n        }\n    ): R {\n        return apply(fns)(value);\n    }\n}";

fn region_of(text: &str) -> String {
    let parsed = parse(text).unwrap();
    let hash = fingerprint(&parsed);
    format!(
        "\n//#region enum-ts generated <{:x}>\n{}\n//#endregion",
        hash,
        generate(parsed)
    )
}

#[test]
fn rewrite_appends_the_region_to_a_file_without_one() {
    let out = rewrite(SOURCE, false).unwrap().unwrap();
    assert_eq!(out, format!("{}{}", SOURCE, region_of(SOURCE)));
    assert!(out.ends_with(&format!("{}\n//#endregion", CODE)));
    assert!(out.starts_with("\ntype T = Enum<{\n    A: X;\n}>;\n\n//#region enum-ts generated <"));
}

#[test]
fn rewrite_twice_is_rewrite_once() {
    let once = rewrite(SOURCE, false).unwrap().unwrap();
    assert_eq!(rewrite(&once, false).unwrap(), None);
}

#[test]
fn rewrite_leaves_an_up_to_date_file() {
    let up_to_date = format!("// head\n{}{}\n// tail\n", SOURCE, region_of(SOURCE));
    assert_eq!(rewrite(&up_to_date, false).unwrap(), None);
    assert_eq!(make_edit(&up_to_date, false).unwrap(), None);
    assert_eq!(make_edit_offsets(&up_to_date, false).unwrap(), None);
}

#[test]
fn rewrite_forced_writes_an_up_to_date_region_again() {
    let up_to_date = format!("// head\n{}{}\n// tail\n", SOURCE, region_of(SOURCE));
    assert_eq!(rewrite(&up_to_date, true).unwrap(), Some(up_to_date.clone()));
    let (start, end, put) = make_edit_offsets(&up_to_date, true).unwrap().unwrap();
    assert_eq!(start, "// head\n".len() + SOURCE.len());
    assert_eq!(end, up_to_date.len() - "\n// tail\n".len());
    assert_eq!(put, region_of(SOURCE));
}

#[test]
fn rewrite_replaces_a_stale_region_in_place() {
    let stale = format!(
        "// head\n{}\n//#region enum-ts generated <0123abcd>\nold code\n//#endregion\n// tail\n",
        SOURCE
    );
    let out = rewrite(&stale, false).unwrap().unwrap();
    assert_eq!(
        out,
        format!("// head\n{}{}\n// tail\n", SOURCE, region_of(SOURCE))
    );
    assert_eq!(rewrite(&out, false).unwrap(), None);
}

#[test]
fn rewrite_replaces_a_region_without_a_fingerprint() {
    let stale = format!("{}\n//#region enum-ts generated <>\n\n//#endregion", SOURCE);
    let out = rewrite(&stale, false).unwrap().unwrap();
    assert_eq!(out, format!("{}{}", SOURCE, region_of(SOURCE)));
}

#[test]
fn rewrite_replaces_the_first_region_only() {
    let regions = format!(
        "{}\n//#region enum-ts generated <1>\na\n//#endregion\n//#region enum-ts generated <2>\nb\n//#endregion",
        SOURCE
    );
    let out = rewrite(&regions, false).unwrap().unwrap();
    assert_eq!(
        out,
        format!(
            "{}{}\n//#region enum-ts generated <2>\nb\n//#endregion",
            SOURCE,
            region_of(SOURCE)
        )
    );
}

#[test]
fn rewrite_leaves_a_file_without_declarations() {
    assert_eq!(rewrite("const x = 1;\n", false).unwrap(), None);
    assert_eq!(rewrite("const x = 1;\n", true).unwrap(), None);
    assert_eq!(rewrite("", true).unwrap(), None);
    assert_eq!(make_edit("const x = 1;\n", true).unwrap(), None);
}

#[test]
fn rewrite_refuses_irregular_indentation() {
    let text = "\ntype T = Enum<{\n    A: X;\n  B: Y;\n}>;\n";
    assert!(matches!(
        rewrite(text, false),
        Err(ParseError::IrregularIndent { .. })
    ));
    assert!(matches!(
        make_edit(text, true),
        Err(ParseError::IrregularIndent { .. })
    ));
    assert!(matches!(
        make_edit_offsets(text, true),
        Err(ParseError::IrregularIndent { .. })
    ));
}

#[test]
fn rewrite_follows_a_change_of_the_declarations() {
    let once = rewrite(SOURCE, false).unwrap().unwrap();
    let edited = once.replace("    A: X;\n", "    A: X;\n    B: Y;\n");
    let again = rewrite(&edited, false).unwrap().unwrap();
    let source = "\ntype T = Enum<{\n    A: X;\n    B: Y;\n}>;\n";
    assert_eq!(again, format!("{}{}", source, region_of(source)));
    assert_eq!(rewrite(&again, false).unwrap(), None);
}

#[test]
fn rewrite_ignores_edits_outside_the_declarations() {
    let once = rewrite(SOURCE, false).unwrap().unwrap();
    let edited = format!("// a new comment\n{}", once);
    assert_eq!(rewrite(&edited, false).unwrap(), None);
}

#[test]
fn second_run_misses_a_declaration_that_stood_in_the_region() {
    let text = "\ntype A = Enum<{\n    X: 1;\n}>;\n\n//#region enum-ts generated <0>\n\ntype B = Enum<{\n    Y: 2;\n}>;\n//#endregion\n";
    assert_eq!(parse(text).unwrap().enums.len(), 2);
    let once = rewrite(text, false).unwrap().unwrap();
    assert_eq!(parse(&once).unwrap().enums.len(), 1);
    let twice = rewrite(&once, false).unwrap().unwrap();
    assert_eq!(rewrite(&twice, false).unwrap(), None);
}

#[test]
fn generated_code_is_not_read_as_a_declaration() {
    let nested = "\ntype T = Enum<{\n    A: Enum<{\n        B: 0;\n    }>;\n}>;\n";
    assert_eq!(parse(nested).unwrap().enums.len(), 1);
    let once = rewrite(nested, false).unwrap().unwrap();
    assert!(once.contains("\nnamespace T {\n    type A = Enum<{\n        B: 0;\n    }>;\n"));
    assert_eq!(parse(&once).unwrap().enums.len(), 1);
    assert_eq!(rewrite(&once, false).unwrap(), None);
}

#[test]
fn make_edit_gives_lines_and_columns() {
    let (from, to, put) = make_edit(SOURCE, false).unwrap().unwrap();
    assert_eq!(from, Position { line: 5, col: 1 });
    assert_eq!(to, Position { line: 5, col: 1 });
    assert_eq!(put, region_of(SOURCE));

    let once = rewrite(SOURCE, false).unwrap().unwrap();
    let (from, to, put) = make_edit(&once, true).unwrap().unwrap();
    assert_eq!(from, Position { line: 5, col: 1 });
    assert_eq!(to, Position { line: 34, col: 13 });
    assert_eq!(put, region_of(SOURCE));
}

#[test]
fn make_edit_offsets_gives_the_end_of_a_file_without_region() {
    let (start, end, put) = make_edit_offsets(SOURCE, false).unwrap().unwrap();
    assert_eq!((start, end), (SOURCE.len(), SOURCE.len()));
    assert_eq!(put, region_of(SOURCE));
}

#[test]
fn region_pattern_escapes_the_sentinels() {
    assert_eq!(
        region_pattern_text(),
        "\n//\\#region enum\\-ts generated <(?P<hash>\\w*)>\n[\\s\\S]*?\n//\\#endregion"
    );
}

#[test]
fn splice_replaces_a_byte_range() {
    assert_eq!(splice("héllo", 1, 3, "e"), "hello");
    assert_eq!(splice("héllo", 6, 6, "!"), "héllo!");
    assert_eq!(splice("héllo", 0, 0, ">"), ">héllo");
    assert_eq!(splice("héllo", 0, 6, ""), "");
}

#[test]
fn typescript_files_end_in_ts_or_tsx() {
    assert!(is_typescript_file("a.ts"));
    assert!(is_typescript_file("a.tsx"));
    assert!(is_typescript_file("A.TS"));
    assert!(is_typescript_file("a.Tsx"));
    assert!(is_typescript_file(".ts"));
    assert!(is_typescript_file("a.d.ts"));
    assert!(!is_typescript_file("a.js"));
    assert!(!is_typescript_file("a.ts.bak"));
    assert!(!is_typescript_file("ats"));
    assert!(!is_typescript_file("a.tsxx"));
    assert!(!is_typescript_file("a.ts\n"));
    assert!(!is_typescript_file(""));
}

#[test]
fn region_bounds_are_those_of_the_first_match() {
    let text = "0123456789";
    assert_eq!(
        region_bounds(text, &vec![vec![Some((2, 5))], vec![Some((6, 8))]]),
        (2, 5)
    );
    assert_eq!(region_bounds(text, &Vec::new()), (10, 10));
    assert_eq!(region_bounds("é", &Vec::new()), (2, 2));
    assert_eq!(region_bounds("", &Vec::new()), (0, 0));
}

#[test]
fn make_region_wraps_the_code_in_header_and_footer() {
    let put = make_region(SOURCE, parse(SOURCE).unwrap(), false).unwrap();
    assert_eq!(put, region_of(SOURCE));
    assert!(put.starts_with("\n//#region enum-ts generated <"));
    assert!(put.ends_with(&format!(">\n{}\n//#endregion", CODE)));
}

#[test]
fn make_region_is_due_unless_the_header_is_there() {
    let parsed = || parse(SOURCE).unwrap();
    let header = format!("\n//#region enum-ts generated <{:x}>\n", fingerprint(&parsed()));
    let holds = format!("anything{}anything", header);
    assert_eq!(make_region(&holds, parsed(), false), None);
    assert_eq!(make_region(&holds, parsed(), true), Some(region_of(SOURCE)));
    let other = header.replace("<", "<0");
    assert_eq!(make_region(&other, parsed(), false), Some(region_of(SOURCE)));
    assert_eq!(make_region(&holds, parse("").unwrap(), true), None);
}

#[test]
fn make_edit_places_are_in_order() {
    let stale = format!(
        "// head\n{}\n//#region enum-ts generated <0123abcd>\nold\ncode\n//#endregion\n// tail\n",
        SOURCE
    );
    let (from, to, _) = make_edit(&stale, false).unwrap().unwrap();
    assert_eq!(from, Position { line: 6, col: 1 });
    assert_eq!(to, Position { line: 10, col: 13 });
    assert!((from.line, from.col) <= (to.line, to.col));

    let (from, to, _) = make_edit(SOURCE, false).unwrap().unwrap();
    assert_eq!(from, to);
}

#[test]
fn region_header_changes_with_a_tag() {
    let other = SOURCE.replace("A: X;", "B: X;");
    let first = make_edit_offsets(SOURCE, true).unwrap().unwrap().2;
    let second = make_edit_offsets(&other, true).unwrap().unwrap().2;
    let header = |region: &str| region[..region.find(">\n").unwrap()].to_string();
    assert!(header(&first).starts_with("\n//#region enum-ts generated <"));
    assert_ne!(header(&first), header(&second));
    assert_eq!(
        header(&first),
        format!(
            "\n//#region enum-ts generated <{:x}",
            fingerprint(&parse(SOURCE).unwrap())
        )
    );
}
