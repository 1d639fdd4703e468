use rusty_brain::interpreter::byte_to_char;
use rusty_brain::interpreter::input_line_byte;
use rusty_brain::interpreter::EvalError;
use rusty_brain::interpreter::Interpreter;
use rusty_brain::interpreter::IoBuffer;
use rusty_brain::lexer::tokenize;
use rusty_brain::lexer::Token;
use rusty_brain::parser::parse;
use rusty_brain::parser::AstNode;
use rusty_brain::parser::ParseError;
use rusty_brain::run;
use rusty_brain::RunError;

const FUEL: u64 = 1_000_000;

/// Re-serialize a tree back to source characters, loop bodies in brackets.
fn reflatten(nodes: &[AstNode], out: &mut String) {
    for node in nodes {
        match node {
            AstNode::IncrementPointer => out.push('>'),
            AstNode::DecrementPointer => out.push('<'),
            AstNode::IncrementValue => out.push('+'),
            AstNode::DecrementValue => out.push('-'),
            AstNode::OutputChar => out.push('.'),
            AstNode::InputChar => out.push(','),
            AstNode::Loop(body) => {
                out.push('[');
                reflatten(body, out);
                out.push(']');
            },
        }
    }
}

#[test]
fn scanner_classifies_each_character() {
    let tokens = tokenize("><+-.,[]x");
    assert_eq!(
        tokens,
        vec![
            Token::IncrementPointer,
            Token::DecrementPointer,
            Token::IncrementValue,
            Token::DecrementValue,
            Token::OutputChar,
            Token::InputChar,
            Token::LoopStart,
            Token::LoopEnd,
            Token::Error('x'),
        ]
    );
}

#[test]
fn scanner_keeps_whitespace_as_invalid() {
    let tokens = tokenize("+ \n+");
    assert_eq!(tokens.len(), 4);
    assert_eq!(tokens[1], Token::Error(' '));
    assert_eq!(tokens[2], Token::Error('\n'));
}

#[test]
fn scanner_length_equals_character_count() {
    let source = "some text, with [brackets] and +-<> mixed in\n";
    let tokens = tokenize(source);
    assert_eq!(tokens.len(), source.chars().count());
}

#[test]
fn scanner_is_deterministic() {
    let source = "+[>,.<-]#";
    assert_eq!(tokenize(source), tokenize(source));
}

#[test]
fn scanner_empty_source() {
    assert_eq!(tokenize(""), Vec::new());
}

#[test]
fn parse_flat_program() {
    let nodes = parse(tokenize("+-><.,")).unwrap();
    assert_eq!(nodes.len(), 6);
    assert!(matches!(nodes[0], AstNode::IncrementValue));
    assert!(matches!(nodes[1], AstNode::DecrementValue));
    assert!(matches!(nodes[2], AstNode::IncrementPointer));
    assert!(matches!(nodes[3], AstNode::DecrementPointer));
    assert!(matches!(nodes[4], AstNode::OutputChar));
    assert!(matches!(nodes[5], AstNode::InputChar));
}

#[test]
fn parse_nested_loops() {
    let nodes = parse(tokenize("+[>[-]<]")).unwrap();
    assert_eq!(nodes.len(), 2);
    assert!(matches!(nodes[0], AstNode::IncrementValue));
    match &nodes[1] {
        AstNode::Loop(body) => {
            assert_eq!(body.len(), 3);
            assert!(matches!(body[0], AstNode::IncrementPointer));
            match &body[1] {
                AstNode::Loop(inner) => {
                    assert_eq!(inner.len(), 1);
                    assert!(matches!(inner[0], AstNode::DecrementValue));
                },
                other => panic!("expected inner loop, got {:?}", other),
            }
            assert!(matches!(body[2], AstNode::DecrementPointer));
        },
        other => panic!("expected loop, got {:?}", other),
    }
}

#[test]
fn parse_reflattens_to_source_order() {
    for source in ["", "+", "[]", "+[>[-]<]", "[[[]]]", ",[.,]", "+[+[+]+]+"] {
        let nodes = parse(tokenize(source)).unwrap();
        let mut out = String::new();
        reflatten(&nodes, &mut out);
        assert_eq!(out, source);
    }
}

/// Nesting depth of a tree: loop nodes nest one deeper than their children.
fn depth(nodes: &[AstNode]) -> usize {
    let mut deepest = 0;
    for node in nodes {
        let d = match node {
            AstNode::Loop(body) => 1 + depth(body),
            _ => 0,
        };
        if d > deepest {
            deepest = d;
        }
    }
    deepest
}

#[test]
fn parse_tree_depth_matches_bracket_nesting() {
    for (source, expected) in [
        ("+-", 0),
        ("[]", 1),
        ("[][]", 1),
        ("+[>[-]<]", 2),
        ("[[[]]]", 3),
        ("[[]][[[],]]", 3),
    ] {
        let nodes = parse(tokenize(source)).unwrap();
        assert_eq!(depth(&nodes), expected, "source {:?}", source);
    }
}

#[test]
fn parse_error_unexpected_character() {
    assert_eq!(
        parse(tokenize("+a")).unwrap_err(),
        ParseError::UnexpectedCharacter('a')
    );
    assert_eq!(
        parse(tokenize("[a]")).unwrap_err(),
        ParseError::UnexpectedCharacter('a')
    );
}

#[test]
fn parse_error_unmatched_close() {
    assert_eq!(parse(tokenize("]")).unwrap_err(), ParseError::UnmatchedClose(0));
    assert_eq!(parse(tokenize("[]]")).unwrap_err(), ParseError::UnmatchedClose(2));
}

#[test]
fn parse_error_unterminated_loop() {
    assert_eq!(parse(tokenize("[")).unwrap_err(), ParseError::UnterminatedLoop(0));
    assert_eq!(parse(tokenize("[[]")).unwrap_err(), ParseError::UnterminatedLoop(0));
    assert_eq!(parse(tokenize("+[[]")).unwrap_err(), ParseError::UnterminatedLoop(1));
}

#[test]
fn wraparound_increment_from_255() {
    // Store 255 through the read instruction, add one, emit: wraps to 0.
    let r = run(",+.", vec![255], FUEL);
    assert_eq!(r, Some(Ok(vec![0])));
}

#[test]
fn wraparound_decrement_from_0() {
    // A fresh cell holds 0; one decrement wraps to 255.
    let r = run("-.", Vec::new(), FUEL);
    assert_eq!(r, Some(Ok(vec![255])));
}

#[test]
fn loop_decrements_to_zero_and_terminates() {
    // Set the cell to 3, then loop decrementing until zero.
    let nodes = parse(tokenize("+++[-]")).unwrap();
    let mut interp = Interpreter::new();
    let mut io = IoBuffer::new(Vec::new());
    let r = interp.execute(&nodes, &mut io, FUEL);
    assert_eq!(r, Some(Ok(())));
    assert_eq!(interp.cell_at(0), 0);
    assert_eq!(interp.pointer(), 0);
    assert_eq!(io.output, Vec::new());
}

#[test]
fn end_to_end_two_increments_output() {
    let r = run("++.", Vec::new(), FUEL);
    assert_eq!(r, Some(Ok(vec![2])));
    assert_eq!(byte_to_char(2), '\u{2}');
}

#[test]
fn end_to_end_loop_entered_once() {
    assert_eq!(run("+[-]", Vec::new(), FUEL), Some(Ok(Vec::new())));
}

#[test]
fn end_to_end_loop_skipped_on_zero() {
    assert_eq!(run("[]", Vec::new(), FUEL), Some(Ok(Vec::new())));
}

#[test]
fn end_to_end_unmatched_close_fails() {
    assert_eq!(
        run("]", Vec::new(), FUEL),
        Some(Err(RunError::Parse(ParseError::UnmatchedClose(0))))
    );
}

#[test]
fn end_to_end_input_stored_and_echoed() {
    assert_eq!(input_line_byte("A"), 65);
    assert_eq!(input_line_byte("A\n"), 65);
    assert_eq!(run(",", vec![65], FUEL), Some(Ok(Vec::new())));
    assert_eq!(run(",.", vec![65], FUEL), Some(Ok(vec![65])));
    assert_eq!(byte_to_char(65), 'A');
}

#[test]
fn input_line_byte_edge_cases() {
    assert_eq!(input_line_byte(""), 0);
    assert_eq!(input_line_byte("\n"), 10);
    assert_eq!(input_line_byte("\u{ff}"), 255);
    // A first character beyond the byte range keeps only its low eight bits.
    assert_eq!(input_line_byte("\u{100}"), 0);
}

#[test]
fn input_exhaustion_reads_zero() {
    // One increment, then a read from empty input: the cell is overwritten
    // with 0, as if an empty line had been supplied.
    assert_eq!(run("+,.", Vec::new(), FUEL), Some(Ok(vec![0])));
}

#[test]
fn input_cursor_advances_per_read() {
    let nodes = parse(tokenize(",>,.")).unwrap();
    let mut interp = Interpreter::new();
    let mut io = IoBuffer::new(vec![7, 9, 11]);
    let r = interp.execute(&nodes, &mut io, FUEL);
    assert_eq!(r, Some(Ok(())));
    assert_eq!(io.cursor, 2);
    assert_eq!(interp.cell_at(0), 7);
    assert_eq!(interp.cell_at(1), 9);
    assert_eq!(io.output, vec![9]);
}

#[test]
fn pointer_underflow_aborts() {
    assert_eq!(
        run("<", Vec::new(), FUEL),
        Some(Err(RunError::Eval(EvalError::PointerUnderflow)))
    );
}

#[test]
fn pointer_overflow_aborts() {
    let source = ">".repeat(30000);
    assert_eq!(
        run(&source, Vec::new(), FUEL),
        Some(Err(RunError::Eval(EvalError::PointerOverflow)))
    );
}

#[test]
fn pointer_reaches_last_cell() {
    let source = ">".repeat(29999);
    assert_eq!(run(&source, Vec::new(), FUEL), Some(Ok(Vec::new())));
}

#[test]
fn infinite_loop_exhausts_budget() {
    assert_eq!(run("+[]", Vec::new(), 10_000), None);
}

#[test]
fn larger_budget_keeps_finished_outcome() {
    let r1 = run("++[->+<]>.", Vec::new(), 1_000);
    let r2 = run("++[->+<]>.", Vec::new(), 1_000_000);
    assert_eq!(r1, Some(Ok(vec![2])));
    assert_eq!(r1, r2);
}

#[test]
fn fresh_interpreter_state() {
    let interp = Interpreter::new();
    assert_eq!(interp.pointer(), 0);
    assert_eq!(interp.cell_at(0), 0);
    assert_eq!(interp.cell_at(29999), 0);
}

#[test]
fn output_bytes_map_to_code_points() {
    assert_eq!(byte_to_char(0), '\0');
    assert_eq!(byte_to_char(10), '\n');
    assert_eq!(byte_to_char(200), '\u{c8}');
    assert_eq!(byte_to_char(255), '\u{ff}');
}
