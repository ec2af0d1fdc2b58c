use tiny_games::brainfuck::{add_mod, build_jump_table, oneline_code, verify_code_characters, Intrepreter};

#[test]
fn add_mod_test() {
    assert_eq!(add_mod(5, -10, 256), 251);
}

#[test]
fn add_mod_wraps_both_ways() {
    assert_eq!(add_mod(29999, 1, 30000), 0);
    assert_eq!(add_mod(0, -1, 30000), 29999);
    assert_eq!(add_mod(255, 1, 256), 0);
    assert_eq!(add_mod(7, 3, 256), 10);
}

#[test]
fn oneline_code_drops_blanks() {
    assert_eq!(oneline_code(String::from("+ +\n-\t.")), "++-.");
}

#[test]
fn invalid_character_is_rejected() {
    assert_eq!(verify_code_characters(&String::from("+a")), Err("Source file contains invalid character"));
    assert_eq!(verify_code_characters(&String::from("><+-.,[]")), Ok(()));
    assert!(Intrepreter::initiate(String::from("+ x")).is_err());
}

#[test]
fn jump_table_points_to_nearest_open_bracket() {
    let table = build_jump_table(&String::from("+[[-]]")).unwrap();
    assert_eq!(table.len(), 2);
    assert_eq!(table.get(&4), Some(&2));
    assert_eq!(table.get(&5), Some(&2));
}

fn run(code: &str, input: &[u8]) -> Vec<u8> {
    let mut it = Intrepreter::initiate(String::from(code)).unwrap();
    let mut out = Vec::new();
    let mut pos = 0;
    let mut steps = 0;
    while !it.is_halted() && steps < 100000 {
        let byte = if it.wants_input() && pos < input.len() {
            pos += 1;
            Some(input[pos - 1])
        } else {
            None
        };
        let (_, o) = it.execute_single(byte);
        if let Some(b) = o {
            out.push(b);
        }
        steps += 1;
    }
    out
}

#[test]
fn program_prints_and_loops() {
    // 3 * 4 = 12, then print it.
    assert_eq!(run("+++[>++++<-]>.", b""), vec![12]);
    // Read a byte and print it incremented.
    assert_eq!(run(",+.", b"A"), vec![b'B']);
    // Decrementing zero wraps to 255.
    assert_eq!(run("-.", b""), vec![255]);
}

#[test]
fn halted_program_returns_nul() {
    let mut it = Intrepreter::initiate(String::from("")).unwrap();
    assert!(it.is_halted());
    assert_eq!(it.execute_single(None), ('\0', None));
}
