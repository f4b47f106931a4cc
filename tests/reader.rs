use radicle::expr::Expr;
use radicle::reader::{read, read_all, read_from, tokenize, SyntaxError};
use radicle::tree::Tree;

fn atom(s: &str) -> Expr {
    Tree::Leaf(String::from(s))
}

#[test]
fn tokenize_pads_parentheses() {
    let toks = tokenize("(gub (middle) end)");
    assert_eq!(toks, vec!["(", "gub", "(", "middle", ")", "end", ")"]);
    let toks = tokenize("  a\tb\n( )");
    assert_eq!(toks, vec!["a", "b", "(", ")"]);
    assert!(tokenize("").is_empty());
    assert!(tokenize(" \n\t ").is_empty());
}

#[test]
fn read_atom_and_nested_lists() {
    assert_eq!(read("x"), Ok(atom("x")));
    let e = read("( 559294 x 79% ()  )").unwrap();
    assert_eq!(
        e,
        Tree::Branch(vec![atom("559294"), atom("x"), atom("79%"), Tree::Branch(vec![])])
    );
    let e = read("(gub (middle) end)").unwrap();
    assert_eq!(
        e,
        Tree::Branch(vec![atom("gub"), Tree::Branch(vec![atom("middle")]), atom("end")])
    );
}

#[test]
fn read_unexpected_end() {
    assert_eq!(read("(a"), Err(SyntaxError::UnexpectedEnd));
    assert_eq!(read(""), Err(SyntaxError::UnexpectedEnd));
    assert_eq!(read("((a b)"), Err(SyntaxError::UnexpectedEnd));
}

#[test]
fn read_stray_closer() {
    assert_eq!(read(")"), Err(SyntaxError::UnexpectedClose));
    assert_eq!(read("a)"), Err(SyntaxError::UnexpectedClose));
    assert_eq!(read("559294)"), Err(SyntaxError::UnexpectedClose));
}

#[test]
fn read_leftover_tokens() {
    assert_eq!(read("a b"), Err(SyntaxError::LeftoverTokens));
    assert_eq!(read("(a) (b)"), Err(SyntaxError::LeftoverTokens));
}

#[test]
fn read_from_reports_position_after_expression() {
    let toks: Vec<String> = tokenize("(a b) c");
    let (e, p) = read_from(&toks, 0).unwrap();
    assert_eq!(e, Tree::Branch(vec![atom("a"), atom("b")]));
    assert_eq!(p, 4);
    let (e, p) = read_from(&toks, p).unwrap();
    assert_eq!(e, atom("c"));
    assert_eq!(p, 5);
    assert_eq!(read_from(&toks, p).err(), Some(SyntaxError::UnexpectedEnd));
}

#[test]
fn read_render_read_round_trip() {
    for text in ["x", "()", "(a (b c) () d)", "  ( quote\n(a   b) )", "((((z))))"] {
        let e = read(text).unwrap();
        let shown = e.render();
        assert_eq!(read(&shown), Ok(e));
    }
    assert_eq!(read("  ( quote\n(a   b) )").unwrap().render(), "(quote (a b))");
}

#[test]
fn read_all_reads_each_expression() {
    let es = read_all("(quote x) (quote y) z").unwrap();
    assert_eq!(es.len(), 3);
    assert_eq!(es[2], atom("z"));
    assert_eq!(es[0].render(), "(quote x)");
    assert!(read_all("").unwrap().is_empty());
    assert_eq!(read_all("(a) )").err(), Some(SyntaxError::UnexpectedClose));
    assert_eq!(read_all("(a) (b").err(), Some(SyntaxError::UnexpectedEnd));
}
