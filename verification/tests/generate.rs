use enum_ts::{generate, parse, Parsed, Source, TSEnum};

#[test]
fn parse_result_with_generics_generate() {
    let source = r###"
type Result<O, E> = Enum<{
    Ok: O;
    Err: E;
}>;

export type Nested = Enum<{
    Leaf: 0;
    Branch: {
        left: Nested,
        right: Nested,
    }
}>;

export type Stoplight = Enum<{
    Green: 0;
    Yellow: 0;
    Red: 0;
}>;
            "###;
    let expected = r###"namespace Result {
    type Ok<O, E> = O;
    type Err<O, E> = E;
    function Ok<O, E>(contents: Ok<O, E>): { Ok: Ok<O, E> } {
        return { Ok: contents };
    }
    function Err<O, E>(contents: Err<O, E>): { Err: Err<O, E> } {
        return { Err: contents };
    }
    function isOk<O, E>(item: Result<O, E>): item is { Ok: Ok<O, E> } {
        return item != null && "Ok" in item;
    }
    function isErr<O, E>(item: Result<O, E>): item is { Err: Err<O, E> } {
        return item != null && "Err" in item;
    }
    const unexpected = "Unexpected Enum variant for Result<O, E>";
    export function apply<O, E, R>(fns: {
        Ok(content: Ok<O, E>): R;
        Err(content: Err<O, E>): R;
    }): (value: Result<O, E>) => R {
        return function matchResultApply(item) {
            return "Ok" in item
                ? fns.Ok(item.Ok)
                : "Err" in item
                ? fns.Err(item.Err)
                : (console.assert(false, unexpected, item) as never);
        };
    }
    export function match<O, E, R>(
        value: Result<O, E>,
        fns: {
            Ok(content: Ok<O, E>): R;
            Err(content: Err<O, E>): R;
        }
    ): R {
        return apply(fns)(value);
    }
}

export namespace Nested {
    export type Leaf = 0;
    export type Branch = {
        left: Nested,
        right: Nested,
    };
    export function Leaf(contents: Leaf): { Leaf: Leaf } {
        return { Leaf: contents };
    }
    export function Branch(contents: Branch): { Branch: Branch } {
        return { Branch: contents };
    }
    export function isLeaf(item: Nested): item is { Leaf: Leaf } {
        return item != null && "Leaf" in item;
    }
    export function isBranch(item: Nested): item is { Branch: Branch } {
        return item != null && "Branch" in item;
    }
    const unexpected = "Unexpected Enum variant for Nested";
    export function apply<R>(fns: {
        Leaf(content: Leaf): R;
        Branch(content: Branch): R;
    }): (value: Nested) => R {
        return function matchNestedApply(item) {
            return "Leaf" in item
                ? fns.Leaf(item.Leaf)
                : "Branch" in item
                ? fns.Branch(item.Branch)
                : (console.assert(false, unexpected, item) as never);
        };
    }
    export function match<R>(
        value: Nested,
        fns: {
            Leaf(content: Leaf): R;
            Branch(content: Branch): R;
        }
    ): R {
        return apply(fns)(value);
    }
}

export namespace Stoplight {
    export type Green = 0;
    export type Yellow = 0;
    export type Red = 0;
    export function Green(contents: Green): { Green: Green } {
        return { Green: contents };
    }
    export function Yellow(contents: Yellow): { Yellow: Yellow } {
        return { Yellow: contents };
    }
    export function Red(contents: Red): { Red: Red } {
        return { Red: contents };
    }
    export function isGreen(item: Stoplight): item is { Green: Green } {
        return item != null && "Green" in item;
    }
    export function isYellow(item: Stoplight): item is { Yellow: Yellow } {
        return item != null && "Yellow" in item;
    }
    export function isRed(item: Stoplight): item is { Red: Red } {
        return item != null && "Red" in item;
    }
    const unexpected = "Unexpected Enum variant for Stoplight";
    export function apply<R>(fns: {
        Green(content: Green): R;
        Yellow(content: Yellow): R;
        Red(content: Red): R;
    }): (value: Stoplight) => R {
        return function matchStoplightApply(item) {
            return "Green" in item
                ? fns.Green(item.Green)
                : "Yellow" in item
                ? fns.Yellow(item.Yellow)
                : "Red" in item
                ? fns.Red(item.Red)
                : (console.assert(false, unexpected, item) as never);
        };
    }
    export function match<R>(
        value: Stoplight,
        fns: {
            Green(content: Green): R;
            Yellow(content: Yellow): R;
            Red(content: Red): R;
        }
    ): R {
        return apply(fns)(value);
    }
}"###;
    let parsed = parse(source).expect("the declarations are well indented");
    assert_eq!(generate(parsed), expected);
}

fn light() -> Parsed {
    Parsed {
        enums: vec![TSEnum {
            name: "Light".to_string(),
            generics: None,
            variants: vec![
                ("On".to_string(), "null".to_string()),
                ("Off".to_string(), "0".to_string()),
            ],
            export: false,
        }],
        indent: "  ".to_string(),
    }
}

fn two_variants(export: bool) -> Parsed {
    Parsed {
        enums: vec![TSEnum {
            name: "T".to_string(),
            generics: None,
            variants: vec![
                ("A".to_string(), "X".to_string()),
                ("B".to_string(), "Y".to_string()),
            ],
            export,
        }],
        indent: "    ".to_string(),
    }
}

#[test]
fn generate_nothing_without_declarations() {
    let parsed = Parsed {
        enums: Vec::new(),
        indent: String::new(),
    };
    assert_eq!(generate(parsed), "");
}

#[test]
fn generate_variant_without_contents() {
    let expected = r###"namespace Light {
  type On = null;
  type Off = 0;
  function On(): { On: On } {
    return { On: null };
  }
  function Off(contents: Off): { Off: Off } {
    return { Off: contents };
  }
  function isOn(item: Light): item is { On: On } {
    return item != null && "On" in item;
  }
  function isOff(item: Light): item is { Off: Off } {
    return item != null && "Off" in item;
  }
  const unexpected = "Unexpected Enum variant for Light";
  export function apply<R>(fns: {
    On(): R;
    Off(content: Off): R;
  }): (value: Light) => R {
    return function matchLightApply(item) {
      return "On" in item
        ? fns.On()
        : "Off" in item
        ? fns.Off(item.Off)
        : (console.assert(false, unexpected, item) as never);
    };
  }
  export function match<R>(
    value: Light,
    fns: {
      On(): R;
      Off(content: Off): R;
    }
  ): R {
    return apply(fns)(value);
  }
}"###;
    assert_eq!(generate(light()), expected);
}

#[test]
fn generate_declaration_without_variants() {
    let parsed = Parsed {
        enums: vec![TSEnum {
            name: "Never".to_string(),
            generics: Some("T".to_string()),
            variants: Vec::new(),
            export: true,
        }],
        indent: "\t".to_string(),
    };
    let expected = "export namespace Never {\n\tconst unexpected = \"Unexpected Enum variant for Never<T>\";\n\texport function apply<T, R>(fns: {\n\t}): (value: Never<T>) => R {\n\t\treturn function matchNeverApply(item) {\n\t\t\treturn (console.assert(false, unexpected, item) as never);\n\t\t};\n\t}\n\texport function match<T, R>(\n\t\tvalue: Never<T>,\n\t\tfns: {\n\t\t}\n\t): R {\n\t\treturn apply(fns)(value);\n\t}\n}";
    assert_eq!(generate(parsed), expected);
}

#[test]
fn constructor_writes_the_key_that_its_guard_tests() {
    let code = generate(two_variants(false));
    assert!(code.contains(
        "\n    function A(contents: A): { A: A } {\n        return { A: contents };\n    }\n"
    ));
    assert!(code.contains(
        "\n    function isA(item: T): item is { A: A } {\n        return item != null && \"A\" in item;\n    }\n"
    ));
    assert!(code.contains(
        "\n    function B(contents: B): { B: B } {\n        return { B: contents };\n    }\n"
    ));
    assert!(code.contains(
        "\n    function isB(item: T): item is { B: B } {\n        return item != null && \"B\" in item;\n    }\n"
    ));
    assert!(code.starts_with("namespace T {\n    type A = X;\n    type B = Y;\n    function A("));
    assert!(code.ends_with("\n}"));
    assert_eq!(code.matches("\nnamespace ").count() + code.matches("namespace T {").count(), 1);
    assert!(!code.contains("return { A: null }"));
}

#[test]
fn dispatch_tests_every_tag_in_declaration_order() {
    let code = generate(two_variants(true));
    assert!(code.contains(
        "            return \"A\" in item\n                ? fns.A(item.A)\n                : \"B\" in item\n                ? fns.B(item.B)\n                : (console.assert(false, unexpected, item) as never);\n"
    ));
    assert!(code.contains(
        "    export function apply<R>(fns: {\n        A(content: A): R;\n        B(content: B): R;\n    }): (value: T) => R {\n"
    ));
    assert!(code.contains(
        "    export function match<R>(\n        value: T,\n        fns: {\n            A(content: A): R;\n            B(content: B): R;\n        }\n    ): R {\n        return apply(fns)(value);\n    }\n"
    ));
    assert!(code.starts_with(
        "export namespace T {\n    export type A = X;\n    export type B = Y;\n    export function A("
    ));
}

#[test]
fn generate_puts_a_blank_line_between_declarations() {
    let mut parsed = two_variants(false);
    parsed.enums.push(TSEnum {
        name: "U".to_string(),
        generics: None,
        variants: Vec::new(),
        export: false,
    });
    let code = generate(parsed);
    assert!(code.starts_with("namespace T {\n    type A = X;\n"));
    assert!(code.contains("\n}\n\nnamespace U {\n"));
    assert!(code.ends_with("        return apply(fns)(value);\n    }\n}"));
}

#[test]
fn source_appends_in_place_and_on_new_lines() {
    let mut src = Source::new("  ".to_string());
    src.push("a");
    src.push("b");
    src.ln_push("c");
    src.ln_push_1("d");
    assert_eq!(src.finish(), "ab\nc\n  d");
}

#[test]
fn source_absorbs_other_sources() {
    let mut inner = Source::new("  ".to_string());
    inner.ln_push("x {");
    inner.ln_push_1("y");
    inner.ln_push("}");

    let mut plain = inner.new_with_same_settings();
    plain.push("head");
    plain.push_source(inner.clone());
    assert_eq!(plain.finish(), "head\nx {\n  y\n}");

    let mut once = inner.new_with_same_settings();
    once.push("head");
    once.push_source_1(inner.clone());
    assert_eq!(once.finish(), "head\n  x {\n    y\n  }");

    let mut twice = inner.new_with_same_settings();
    twice.push("head");
    twice.push_source_2(inner);
    assert_eq!(twice.finish(), "head\n    x {\n      y\n    }");
}

#[test]
fn new_source_with_same_settings_is_empty() {
    let mut src = Source::new("\t".to_string());
    src.push("text");
    let mut other = src.new_with_same_settings();
    assert_eq!(other.clone().finish(), "");
    other.ln_push_1("x");
    assert_eq!(other.finish(), "\n\tx");
}
