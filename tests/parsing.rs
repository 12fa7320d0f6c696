use bfc::intermediate::{BrainFuck, Op, Stat};
use bfc::parser::parse;

#[test]
fn nesting_three_levels() {
    assert_eq!(
        parse("[[[]]]"),
        Ok(BrainFuck(vec![Stat::WhileNonZero(vec![Stat::WhileNonZero(
            vec![Stat::WhileNonZero(vec![])]
        )])]))
    );
}

#[test]
fn raw_insert_kept_exactly() {
    assert_eq!(
        parse("::abc\ndef::"),
        Ok(BrainFuck(vec![Stat::Asm("abc\ndef".to_string())]))
    );
    assert_eq!(
        parse(":: padded ::"),
        Ok(BrainFuck(vec![Stat::Asm(" padded ".to_string())]))
    );
}

#[test]
fn trailing_garbage_is_reported() {
    assert_eq!(parse("++$$"), Err("$$"));
    assert_eq!(parse("++ \n $$"), Err("$$"));
    assert_eq!(parse("$"), Err("$"));
}

#[test]
fn open_loop_is_an_error() {
    assert_eq!(parse("+[+"), Err("[+"));
    assert_eq!(parse("[[]"), Err("[[]"));
    assert_eq!(parse("]"), Err("]"));
}

#[test]
fn open_insert_is_an_error() {
    assert_eq!(parse("-::abc"), Err("::abc"));
    assert_eq!(parse(":+"), Err(":+"));
}

#[test]
fn open_comment_is_an_error() {
    assert_eq!(parse("+# no end"), Err("# no end"));
}

#[test]
fn empty_and_blank_programs() {
    assert_eq!(parse(""), Ok(BrainFuck(vec![])));
    assert_eq!(parse(" \t\r\n"), Ok(BrainFuck(vec![])));
    assert_eq!(parse("# only a comment #"), Ok(BrainFuck(vec![])));
}

#[test]
fn every_token() {
    assert_eq!(
        parse("><+-,."),
        Ok(BrainFuck(vec![
            Stat::PtrMove(1),
            Stat::PtrMove(-1),
            Stat::DerefOp(Op::Add, 1),
            Stat::DerefOp(Op::Add, -1),
            Stat::Input,
            Stat::Output,
        ]))
    );
}

#[test]
fn blanks_inside_brackets() {
    let plain = parse("[+[-]]").unwrap();
    assert_eq!(parse("[ + [ - ] ]").unwrap(), plain);
    assert_eq!(parse("[#a#+#b#[\t-\n]#c#]").unwrap(), plain);
    assert_eq!(parse("[ ]"), Ok(BrainFuck(vec![Stat::WhileNonZero(vec![])])));
}

#[test]
fn insert_ends_at_first_colons() {
    assert_eq!(
        parse("::a:b::"),
        Ok(BrainFuck(vec![Stat::Asm("a:b".to_string())]))
    );
    assert_eq!(parse("::a:::"), Err(":"));
}

#[test]
fn printed_program_parses_back() {
    let bf = BrainFuck(vec![
        Stat::PtrMove(1),
        Stat::WhileNonZero(vec![
            Stat::DerefOp(Op::Add, -1),
            Stat::WhileNonZero(vec![Stat::PtrMove(-1), Stat::Output]),
            Stat::Asm("mov r0, r1\nadd r0, #1".to_string()),
        ]),
        Stat::Input,
        Stat::DerefOp(Op::Add, 1),
    ]);
    let text = bf.to_string();
    assert_eq!(text, ">[-[<.]::mov r0, r1\nadd r0, #1::],+\n");
    assert_eq!(parse(&text), Ok(bf));
}
