//! The tool around the patches.

use hlbc::opcodes::Opcode;
use hlbc::types::{
    Function, Native, ObjField, RefFun, RefGlobal, RefString, RefType, Reg, Type, TypeFun,
    TypeObj,
};
use patch_northgard::diagnose::{
    class_name_of, contains, direct_subclasses, find_callers, find_field_anywhere,
    function_matches, list_functions, name_of, native_signature, who_is, CallSite, FieldSite, SignatureError,
};
use patch_northgard::dialogue::{begin_search, menu_choice, Choice, Search};
use patch_northgard::image::load;
use patch_northgard::module::Module;
use patch_northgard::replace::{next_stamp, temp_file_name, Progress};
use patch_northgard::steam::{
    candidate_steam_library_roots, find_northgard_via_steam, Candidate, GAME_SUBDIRS,
};
use std::collections::HashMap;

// ---------------------------------------------------------------------------------------------
// Steam
// ---------------------------------------------------------------------------------------------

const FOLDERS: &str = "\"libraryfolders\"\r\n{\r\n\t\"0\"\r\n\t{\r\n\
    \t\t\"path\"\t\t\"C:\\\\Program Files (x86)\\\\Steam\"\r\n\
    \t\t\"label\"\t\t\"\"\r\n\t}\r\n\t\"1\"\n\t{\n\
    \t\t\"path\"\t\t\"D:\\\\SteamLibrary\"\n\t\t\"contentid\"\t\t\"12\"\n\t}\n}\n";

#[test]
fn libraries_are_read_from_the_list() {
    assert_eq!(
        candidate_steam_library_roots(Some("c:/steam"), Some(FOLDERS)),
        ["c:/steam", "C:\\Program Files (x86)\\Steam", "D:\\SteamLibrary"]
    );
}

#[test]
fn missing_list_leaves_steam_itself() {
    assert_eq!(candidate_steam_library_roots(Some("c:/steam"), None), ["c:/steam"]);
    assert_eq!(candidate_steam_library_roots(Some("c:/steam"), Some("")), ["c:/steam"]);
}

#[test]
fn unknown_steam_has_no_libraries() {
    assert!(candidate_steam_library_roots(None, Some(FOLDERS)).is_empty());
}

#[test]
fn odd_lines_are_read_like_this() {
    let roots = |text: &str| candidate_steam_library_roots(Some("s"), Some(text))[1..].to_vec();
    // Too few quotation marks.
    assert!(roots("\"path\"").is_empty());
    assert!(roots("\"path\" x").is_empty());
    // No closing quotation mark: what is there, without the space behind it.
    assert_eq!(roots("\"path\" \"E:\\\\g  \t"), ["E:\\g"]);
    // Another key.
    assert!(roots("\"paths\" \"E:\"").is_empty());
    assert_eq!(roots("\u{3000}\"path\"\"E:\""), ["E:"]);
    // Three backslashes in a row.
    assert_eq!(roots("\"path\" \"\\\\\\x\""), ["\\\\x"]);
    // A carriage return alone ends no line.
    assert_eq!(roots("\"path\" \"a\rb\""), ["a\rb"]);
}

fn candidate(dir: &str, has_game: bool) -> Candidate {
    Candidate { dir: dir.to_string(), has_game }
}

#[test]
fn first_folder_with_the_game_is_taken() {
    let list = vec![candidate("a", false), candidate("b", true), candidate("c", true)];
    assert_eq!(find_northgard_via_steam(&list), Some("b".to_string()));
    assert_eq!(find_northgard_via_steam(&vec![candidate("a", false)]), None);
    assert_eq!(find_northgard_via_steam(&Vec::new()), None);
    assert_eq!(GAME_SUBDIRS, ["steamapps", "common", "Northgard"]);
}

// ---------------------------------------------------------------------------------------------
// Dialogue
// ---------------------------------------------------------------------------------------------

#[test]
fn found_folder_is_taken_when_confirmed() {
    for line in ["", "\n", "y\r\n", " Y ", "yes", "YeS\n"] {
        match begin_search(Some("dir".to_string())).on_line(line) {
            Search::Chosen(dir) => assert_eq!(dir, "dir"),
            other => panic!("{line:?}: {other:?}"),
        }
    }
    for line in ["n", "no", "ye", "yess", "y y"] {
        assert!(matches!(
            begin_search(Some("dir".to_string())).on_line(line),
            Search::Asking
        ));
    }
}

#[test]
fn typed_folder_is_looked_into() {
    let search = begin_search(None);
    assert!(matches!(search, Search::Asking));
    let search = search.on_line("  D:\\Games\\Northgard \r\n");
    match &search {
        Search::Checking(dir) => assert_eq!(dir, "D:\\Games\\Northgard"),
        other => panic!("{other:?}"),
    }
    let search = search.on_checked(false);
    assert!(matches!(search, Search::Asking));
    match search.on_line("E:\n").on_checked(true) {
        Search::Chosen(dir) => assert_eq!(dir, "E:"),
        other => panic!("{other:?}"),
    }
}

#[test]
fn blank_line_calls_the_search_off() {
    assert!(matches!(begin_search(None).on_line(" \n"), Search::Cancelled));
    assert!(matches!(
        begin_search(Some("dir".to_string())).on_line("n").on_line(""),
        Search::Cancelled
    ));
}

#[test]
fn search_that_is_over_stays_so() {
    assert!(matches!(begin_search(None).on_line("").on_line("x"), Search::Cancelled));
    assert!(matches!(begin_search(None).on_checked(true), Search::Asking));
    assert!(matches!(
        begin_search(Some("dir".to_string())).on_line("").on_line("n").on_checked(false),
        Search::Chosen(_)
    ));
}

#[test]
fn menu_offers_three_choices() {
    assert_eq!(menu_choice("1\n"), Choice::Apply);
    assert_eq!(menu_choice(" 2 "), Choice::Restore);
    assert_eq!(menu_choice("3\r\n"), Choice::Exit);
    assert_eq!(menu_choice("\n"), Choice::Exit);
    assert_eq!(menu_choice("4"), Choice::Invalid);
    assert_eq!(menu_choice("11"), Choice::Invalid);
}

// ---------------------------------------------------------------------------------------------
// Replacing a file
// ---------------------------------------------------------------------------------------------

#[test]
fn replacing_goes_through_a_file_beside() {
    assert_eq!(Progress::Writing.on_tried(true), Progress::Renaming);
    assert_eq!(Progress::Renaming.on_tried(true), Progress::Done);
    assert_eq!(Progress::Writing.on_tried(false), Progress::Removing);
    assert_eq!(Progress::Renaming.on_tried(false), Progress::Removing);
    assert_eq!(Progress::Removing.on_tried(true), Progress::Failed);
    assert_eq!(Progress::Removing.on_tried(false), Progress::Failed);
    assert_eq!(Progress::Done.on_tried(false), Progress::Done);
    assert_eq!(Progress::Failed.on_tried(true), Progress::Failed);
}

#[test]
fn file_beside_is_named_after_process_and_time() {
    assert_eq!(temp_file_name("hlboot.dat", 4120, 0), ".hlboot.dat.tmp_4120_0");
    assert_eq!(
        temp_file_name("x", 7, 340282366920938463463374607431768211455),
        ".x.tmp_7_340282366920938463463374607431768211455"
    );
}

/// Several writers take turns in every order that a few numbers give: the target is never torn.
#[test]
fn writers_that_take_turns_never_tear_the_target() {
    for seed in 0..200usize {
        let data = ["first", "second", "third"];
        let mut target = "old";
        let mut beside: [Option<&str>; 3] = [None; 3];
        let mut progress = [Progress::Writing; 3];
        let mut state = seed * 2654435761 + 1;
        for _ in 0..40 {
            state = (state * 1103515245 + 12345) % 2147483648;
            let k = (state / 65536) % 3;
            let ok = (state / 1024) % 4 != 0;
            match progress[k] {
                Progress::Writing => beside[k] = Some(if ok { data[k] } else { "half" }),
                Progress::Renaming => {
                    if ok {
                        target = beside[k].take().unwrap();
                    }
                }
                Progress::Removing => beside[k] = None,
                Progress::Done => assert_eq!(beside[k], None),
                Progress::Failed => {}
            }
            progress[k] = progress[k].on_tried(ok);
            assert!(target == "old" || data.contains(&target));
        }
    }
}

// ---------------------------------------------------------------------------------------------
// Diagnosis
// ---------------------------------------------------------------------------------------------

fn class(name: usize, super_: Option<usize>, own: &[(usize, usize)]) -> Type {
    let own_fields: Vec<ObjField> =
        own.iter().map(|(n, t)| ObjField { name: RefString(*n), t: RefType(*t) }).collect();
    Type::Obj(TypeObj {
        name: RefString(name),
        super_: super_.map(RefType),
        global: RefGlobal(0),
        own_fields: own_fields.clone(),
        protos: Vec::new(),
        bindings: HashMap::new(),
        fields: own_fields,
    })
}

fn method(findex: usize, name: usize, parent: Option<usize>, ops: Vec<Opcode>) -> Function {
    Function {
        name: RefString(name),
        t: RefType(1),
        findex: RefFun(findex),
        regs: vec![RefType(0)],
        ops,
        debug_info: Some(vec![(1, 5)]),
        assigns: None,
        parent: parent.map(RefType),
    }
}

/// The bytes of a program with hardly anything in it.
fn small_image() -> Vec<u8> {
    let mut out = hlbc::Bytecode::default();
    out.bytes = Some((Vec::new(), Vec::new()));
    out.natives = vec![Native {
        lib: RefString(0),
        name: RefString(0),
        t: RefType(0),
        findex: RefFun(0),
    }];
    out.constants = Some(Vec::new());
    let mut image = Vec::new();
    out.serialize(&mut image).unwrap();
    image
}

fn sample() -> Module {
    let strings = ["", "Base", "Left", "Right", "Size", "size", "std", "now", "run"];
    let call = |fun: usize| RefFun(fun);
    Module {
        ints: Vec::new(),
        floats: Vec::new(),
        strings: strings.iter().map(|s| s.to_string()).collect(),
        debug_files: Some(vec!["a/Main.hx".to_string(), "b/Conquest.hx".to_string()]),
        types: vec![
            Type::Void,
            Type::Fun(TypeFun { args: vec![RefType(0), RefType(2)], ret: RefType(3) }),
            class(1, None, &[(4, 0)]),
            class(2, Some(2), &[(5, 1), (6, 1)]),
            class(3, Some(2), &[]),
            class(7, Some(3), &[(4, 0)]),
        ],
        natives: vec![
            Native { lib: RefString(6), name: RefString(7), t: RefType(1), findex: RefFun(0) },
            Native { lib: RefString(6), name: RefString(8), t: RefType(0), findex: RefFun(4) },
        ],
        functions: vec![
            method(
                7,
                8,
                Some(3),
                vec![
                    Opcode::Call0 { dst: Reg(0), fun: call(9) },
                    Opcode::Label,
                    Opcode::CallN { dst: Reg(0), fun: call(9), args: vec![] },
                    Opcode::Call1 { dst: Reg(0), fun: call(7), arg0: Reg(0) },
                ],
            ),
            method(
                9,
                0,
                None,
                vec![Opcode::Call3 {
                    dst: Reg(0),
                    fun: call(9),
                    arg0: Reg(0),
                    arg1: Reg(0),
                    arg2: Reg(0),
                }],
            ),
        ],
        rest: load(&small_image()).unwrap().rest,
    }
}

#[test]
fn callers_are_found() {
    let code = sample();
    let site = |function: usize, op: usize| CallSite { function, op };
    assert_eq!(find_callers(&code, 9), [site(0, 0), site(0, 2), site(1, 0)]);
    assert_eq!(find_callers(&code, 7), [site(0, 3)]);
    assert!(find_callers(&code, 0).is_empty());
}

#[test]
fn fields_are_found_in_any_class() {
    let code = sample();
    let site = |class: usize, field: usize| FieldSite { class, field };
    assert_eq!(find_field_anywhere(&code, "SIZE"), [site(2, 0), site(3, 0), site(5, 0)]);
    assert_eq!(find_field_anywhere(&code, "std"), [site(3, 1)]);
    assert!(find_field_anywhere(&code, "Siz").is_empty());
}

#[test]
fn direct_subclasses_are_found() {
    let code = sample();
    assert_eq!(direct_subclasses(&code, "Base"), [3, 4]);
    assert_eq!(direct_subclasses(&code, "Left"), [5]);
    assert!(direct_subclasses(&code, "Right").is_empty());
}

#[test]
fn functions_have_an_identity() {
    let code = sample();
    let id = who_is(&code, 7).unwrap();
    assert_eq!(id.name, Some("run".to_string()));
    assert_eq!(id.class, Some("Left".to_string()));
    let id = who_is(&code, 9).unwrap();
    assert_eq!(id.name, Some("<none>".to_string()));
    assert_eq!(id.class, None);
    assert!(who_is(&code, 8).is_none());
}

#[test]
fn names_are_read() {
    let code = sample();
    assert_eq!(name_of(&code, RefString(2)), Some("Left".to_string()));
    assert_eq!(name_of(&code, RefString(9)), None);
    assert_eq!(class_name_of(&code, RefType(4)), Some("Right".to_string()));
    assert_eq!(class_name_of(&code, RefType(0)), None);
    assert_eq!(class_name_of(&code, RefType(6)), None);
}

#[test]
fn natives_have_a_signature() {
    let code = sample();
    let sig = native_signature(&code, "std", "now").unwrap();
    assert_eq!(sig.findex, 0);
    assert_eq!(sig.args, [RefType(0), RefType(2)]);
    assert_eq!(sig.ret, RefType(3));
    assert_eq!(
        native_signature(&code, "std", "run").unwrap_err(),
        SignatureError::NoSignature
    );
    assert_eq!(native_signature(&code, "fmt", "now").unwrap_err(), SignatureError::NoNative);
}

#[test]
fn texts_are_searched() {
    assert!(contains("Conquest.hx", "quest"));
    assert!(contains("abc", ""));
    assert!(contains("", ""));
    assert!(contains("aab", "ab"));
    assert!(!contains("abc", "ac"));
    assert!(!contains("ab", "abc"));
}

#[test]
fn functions_are_listed_by_header_or_file() {
    let code = sample();
    let f = &code.functions[0];
    assert!(function_matches(&code, f, "fn run@7", "run"));
    assert!(function_matches(&code, f, "fn run@7", "Conquest"));
    assert!(!function_matches(&code, f, "fn run@7", "Main"));
    let mut bare = f.clone();
    bare.debug_info = Some(vec![]);
    assert!(!function_matches(&code, &bare, "fn run@7", "Conquest"));
    bare.debug_info = Some(vec![(2, 0)]);
    assert!(!function_matches(&code, &bare, "fn run@7", "Conquest"));
    bare.debug_info = None;
    assert!(!function_matches(&code, &bare, "fn run@7", "Conquest"));
}

#[test]
fn functions_are_listed_by_header_or_source_file() {
    let code = sample();
    let headers: Vec<String> = vec!["fn run@7".to_string(), "fn <none>@9".to_string()];
    assert_eq!(list_functions(&code, &headers, "fn"), [0, 1]);
    assert_eq!(list_functions(&code, &headers, "run"), [0]);
    assert_eq!(list_functions(&code, &headers, "none"), [1]);
    assert!(list_functions(&code, &headers, "elsewhere").is_empty());
    assert_eq!(list_functions(&code, &headers[..1].to_vec(), "fn"), [0]);
}

#[test]
fn stamps_of_a_process_differ() {
    assert_eq!(next_stamp(None, 5), 5);
    assert_eq!(next_stamp(Some(4), 5), 5);
    assert_eq!(next_stamp(Some(5), 5), 6);
    assert_eq!(next_stamp(Some(9), 5), 10);
    assert_eq!(next_stamp(Some(u128::MAX), 5), 5);
}

#[test]
fn every_writer_succeeds_in_any_order() {
    for order in [[0, 0, 1, 1], [0, 1, 0, 1], [1, 0, 0, 1]] {
        let mut target: Option<usize> = None;
        let mut beside: [bool; 2] = [false; 2];
        let mut progress = [Progress::Writing; 2];
        for k in order {
            match progress[k] {
                Progress::Writing => beside[k] = true,
                Progress::Renaming => {
                    beside[k] = false;
                    target = Some(k);
                }
                other => panic!("{other:?}"),
            }
            progress[k] = progress[k].on_tried(true);
        }
        assert_eq!(progress, [Progress::Done; 2]);
        assert_eq!(beside, [false; 2]);
        assert_eq!(target, Some(order[3]));
    }
}
