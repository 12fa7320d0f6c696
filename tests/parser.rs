use bfc::intermediate::{BrainFuck, Op, Stat};
use bfc::parser::parse;

#[test]
fn parses_assembly_inserts() {
    assert_eq!(
        parse("::ldr r3, =345::"),
        Ok(BrainFuck(vec![Stat::Asm("ldr r3, =345".to_string())]))
    );
    assert_eq!(
        parse("::ldr r3, =345\n@this is a comment\nmov r3, r4::"),
        Ok(BrainFuck(vec![Stat::Asm(
            "ldr r3, =345\n@this is a comment\nmov r3, r4".to_string()
        )]))
    );
    assert_eq!(
        parse("::::"),
        Ok(BrainFuck(vec![Stat::Asm("".to_string())]))
    );
    assert_eq!(
        parse("::::++"),
        Ok(BrainFuck(vec![
            Stat::Asm("".to_string()),
            Stat::DerefOp(Op::Add, 1),
            Stat::DerefOp(Op::Add, 1)
        ]))
    );
    assert_eq!(
        parse("--::::++"),
        Ok(BrainFuck(vec![
            Stat::DerefOp(Op::Add, -1),
            Stat::DerefOp(Op::Add, -1),
            Stat::Asm("".to_string()),
            Stat::DerefOp(Op::Add, 1),
            Stat::DerefOp(Op::Add, 1)
        ]))
    );
}

#[test]
fn parses_while() {
    assert_eq!(
        parse(" \t\n [::ldr r3, =345::]"),
        Ok(BrainFuck(vec![Stat::WhileNonZero(vec![Stat::Asm(
            "ldr r3, =345".to_string()
        )])]))
    );
    assert_eq!(
        parse(" \t\n [::ldr r3, =345::++]++"),
        Ok(BrainFuck(vec![
            Stat::WhileNonZero(vec![
                Stat::Asm("ldr r3, =345".to_string()),
                Stat::DerefOp(Op::Add, 1),
                Stat::DerefOp(Op::Add, 1)
            ]),
            Stat::DerefOp(Op::Add, 1),
            Stat::DerefOp(Op::Add, 1)
        ]))
    );
    assert_eq!(
        parse(" \t\n [[<]::ldr r3, =345::++]++"),
        Ok(BrainFuck(vec![
            Stat::WhileNonZero(vec![
                Stat::WhileNonZero(vec![Stat::PtrMove(-1)]),
                Stat::Asm("ldr r3, =345".to_string()),
                Stat::DerefOp(Op::Add, 1),
                Stat::DerefOp(Op::Add, 1)
            ]),
            Stat::DerefOp(Op::Add, 1),
            Stat::DerefOp(Op::Add, 1)
        ]))
    );
    assert_eq!(
        parse("[[[]]]"),
        Ok(BrainFuck(vec![Stat::WhileNonZero(vec![
            Stat::WhileNonZero(vec![Stat::WhileNonZero(vec![])])
        ])]))
    )
}

#[test]
fn parse_skips_comments_and_whitespace() {
    // spaces, tabs, newlines
    assert_eq!(
        parse(" \t\n ::ldr r3, =345::"),
        Ok(BrainFuck(vec![Stat::Asm("ldr r3, =345".to_string())]))
    );
    assert_eq!(
        parse("::ldr r3, =345\n@this is a comment\nmov r3, r4:: \r\n"),
        Ok(BrainFuck(vec![Stat::Asm(
            "ldr r3, =345\n@this is a comment\nmov r3, r4".to_string()
        )]))
    );
    assert_eq!(
        parse(" \t:::: \r\n"),
        Ok(BrainFuck(vec![Stat::Asm("".to_string())]))
    );
    assert_eq!(
        parse(" \t\t:::: +\r\n + "),
        Ok(BrainFuck(vec![
            Stat::Asm("".to_string()),
            Stat::DerefOp(Op::Add, 1),
            Stat::DerefOp(Op::Add, 1)
        ]))
    );
    assert_eq!(
        parse("- - ::::+\n+ "),
        Ok(BrainFuck(vec![
            Stat::DerefOp(Op::Add, -1),
            Stat::DerefOp(Op::Add, -1),
            Stat::Asm("".to_string()),
            Stat::DerefOp(Op::Add, 1),
            Stat::DerefOp(Op::Add, 1)
        ]))
    );

    // comments
    assert_eq!(
        parse("# hello #::ldr r3, =345::"),
        Ok(BrainFuck(vec![Stat::Asm("ldr r3, =345".to_string())]))
    );
    assert_eq!(parse("::ldr r3, =345\n@this is a comment\nmov r3, r4::# hello, this is not an insert :: asm :: #"), Ok(BrainFuck(vec![Stat::Asm("ldr r3, =345\n@this is a comment\nmov r3, r4".to_string())])));
    assert_eq!(
        parse("##::::# hello #"),
        Ok(BrainFuck(vec![Stat::Asm("".to_string())]))
    );
    assert_eq!(
        parse("::::# hello ## world #+# hello #+# hello #"),
        Ok(BrainFuck(vec![
            Stat::Asm("".to_string()),
            Stat::DerefOp(Op::Add, 1),
            Stat::DerefOp(Op::Add, 1)
        ]))
    );
    assert_eq!(
        parse("#++++#--::::#<<-->>#++"),
        Ok(BrainFuck(vec![
            Stat::DerefOp(Op::Add, -1),
            Stat::DerefOp(Op::Add, -1),
            Stat::Asm("".to_string()),
            Stat::DerefOp(Op::Add, 1),
            Stat::DerefOp(Op::Add, 1)
        ]))
    );

    // both
    assert_eq!(
        parse("# hello # \t::ldr r3, =345::\n"),
        Ok(BrainFuck(vec![Stat::Asm("ldr r3, =345".to_string())]))
    );
    assert_eq!(parse(" \t \t::ldr r3, =345\n@this is a comment\nmov r3, r4::# hello, this is not an insert :: asm :: #\n"), Ok(BrainFuck(vec![Stat::Asm("ldr r3, =345\n@this is a comment\nmov r3, r4".to_string())])));
    assert_eq!(
        parse("##\r\n::::# hello #\t"),
        Ok(BrainFuck(vec![Stat::Asm("".to_string())]))
    );
    assert_eq!(
        parse("::::\t# hello # \n # world #+# hello #+  # hello #"),
        Ok(BrainFuck(vec![
            Stat::Asm("".to_string()),
            Stat::DerefOp(Op::Add, 1),
            Stat::DerefOp(Op::Add, 1)
        ]))
    );
    assert_eq!(
        parse("#++++#--::::#<<-->>#\n++"),
        Ok(BrainFuck(vec![
            Stat::DerefOp(Op::Add, -1),
            Stat::DerefOp(Op::Add, -1),
            Stat::Asm("".to_string()),
            Stat::DerefOp(Op::Add, 1),
            Stat::DerefOp(Op::Add, 1)
        ]))
    );
}
