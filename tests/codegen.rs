use bfc::arch::c99;
use bfc::arch::{compile, Backend};
use bfc::intermediate::{BrainFuck, Op, Stat};

const HEAD: &str = "#include <stdio.h>\nint main(int argc, char **argv) {\n\tchar cells[";

#[test]
fn loop_body_is_one_level_deeper() {
    let bf = BrainFuck(vec![Stat::WhileNonZero(vec![Stat::PtrMove(1)])]);
    let (text, ext) = compile(Backend::C99, &bf, 0, 10);
    assert_eq!(ext, "c");
    assert!(text.contains("\n\twhile(*ptr) {\n\t\tptr += 1;\n\t}\n"));
    assert_eq!(
        text,
        format!(
            "{}10] = {{0}};\n\tchar* ptr = cells;\n\twhile(*ptr) {{\n\t\tptr += 1;\n\t}}\n}}\n",
            HEAD
        )
    );
}

#[test]
fn most_negative_operand_is_exact() {
    let bf = BrainFuck(vec![Stat::DerefOp(Op::Add, i32::MIN)]);
    let text = c99::compile(&bf, 0, 1);
    assert!(text.contains("\t*ptr += -2147483648;\n"));
    let bf = BrainFuck(vec![Stat::PtrMove(i32::MIN), Stat::PtrMove(i32::MAX)]);
    let text = c99::compile(&bf, 0, 1);
    assert!(text.contains("\tptr -= 2147483648;\n\tptr += 2147483647;\n"));
}

#[test]
fn every_statement() {
    let bf = BrainFuck(vec![
        Stat::PtrMove(-3),
        Stat::PtrMove(0),
        Stat::DerefOp(Op::Mul, 2),
        Stat::DerefOp(Op::Div, 4),
        Stat::DerefOp(Op::Mod, 5),
        Stat::Output,
        Stat::Input,
    ]);
    let text = c99::compile(&bf, 0, 30000);
    assert_eq!(
        text,
        format!(
            "{}30000] = {{0}};\n\tchar* ptr = cells;\n\tptr -= 3;\n\t/* redundant ptr move*/\n\t*ptr *= 2;\n\t*ptr /= 4;\n\t*ptr %= 5;\n\tputchar(*ptr);\n\t*ptr = getchar();\n}}\n",
            HEAD
        )
    );
}

#[test]
fn pointer_starts_after_pre_cells() {
    let text = c99::compile(&BrainFuck(vec![]), 5, 10);
    assert_eq!(
        text,
        format!("{}15] = {{0}};\n\tchar* ptr = cells + 5;\n}}\n", HEAD)
    );
}

#[test]
fn largest_tape_size_does_not_wrap() {
    let text = c99::compile(&BrainFuck(vec![]), u32::MAX, u32::MAX);
    assert!(text.contains("cells[8589934590]"));
    assert!(text.contains("cells + 4294967295;"));
}

#[test]
fn insert_is_reindented() {
    let bf = BrainFuck(vec![Stat::WhileNonZero(vec![Stat::Asm("a;\nb;".to_string())])]);
    let text = c99::compile(&bf, 0, 1);
    assert!(text.contains(
        "\twhile(*ptr) {\n\t\t/* Start of inserted section*/\n\t\ta;\n\t\tb;/* End of inserted section */\n\t}\n"
    ));
}
