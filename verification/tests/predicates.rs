//! Predicates: reading, writing, fanning out, filling in.

use rwmcp::pred::{Pred, Val};
use rwmcp::pred_parse::{is_alnum, is_letter, is_white, ParseError};

#[test]
fn round_trips() {
    for src in [
        "invoice(customer=customer(name='Acme')).exists",
        "invoice(id=$id).status='sent'",
        "report(invoices=[$A.id,$B.id]).exists",
        "customer(name=$name).resolved",
        "invoice(id=$invoice_ids[]).exists",
        "invoice(id=$id).approved=true",
    ] {
        let p = Pred::parse(src).unwrap();
        assert_eq!(p.to_string(), src, "round trip");
    }
}

#[test]
fn each_unrolls_one_predicate_per_element() {
    let p = Pred::parse("invoice(customer=customer(name=each(['Acme','Globex','Initech']))).status='sent'").unwrap();
    assert_eq!(p.to_string(), "invoice(customer=customer(name=each(['Acme','Globex','Initech']))).status='sent'");
    let rolled = p.unroll();
    assert_eq!(rolled.len(), 3);
    assert_eq!(rolled[1].to_string(), "invoice(customer=customer(name='Globex')).status='sent'");
    assert_eq!(Pred::parse("invoice(id=3).exists").unwrap().unroll().len(), 1);
}

#[test]
fn each_inside_a_list_splices_instead_of_fanning_out() {
    // One report over three invoices, not three reports.
    let p = Pred::parse("report(invoices=[invoice(customer=each(['Acme','Globex','Initech']))]).exists").unwrap();
    let rolled = p.unroll();
    assert_eq!(rolled.len(), 1);
    assert_eq!(
        rolled[0].to_string(),
        "report(invoices=[invoice(customer='Acme'),invoice(customer='Globex'),invoice(customer='Initech')]).exists"
    );
    // A bare each in an argument still fans the want out.
    let p = Pred::parse("invoice(customer=each(['Acme','Globex'])).status='sent'").unwrap();
    assert_eq!(p.unroll().len(), 2);
    // A list with no each is untouched.
    let p = Pred::parse("report(invoices=[$A.id,$B.id]).exists").unwrap();
    assert_eq!(p.unroll().len(), 1);
    assert_eq!(p.unroll()[0].to_string(), "report(invoices=[$A.id,$B.id]).exists");
}

#[test]
fn errors_are_typed() {
    assert!(matches!(Pred::parse("invoice(").unwrap_err(), ParseError::Expected { .. }));
    assert!(matches!(Pred::parse("invoice(name='x").unwrap_err(), ParseError::Unterminated));
    assert!(matches!(Pred::parse("invoice() extra").unwrap_err(), ParseError::Trailing { .. }));
}

#[test]
fn nested_entity_is_a_value() {
    let p = Pred::parse("invoice(customer=customer(name='Acme')).exists").unwrap();
    match p.arg("customer") {
        Some(Val::Entity(inner)) => assert_eq!(inner.entity, "customer"),
        other => panic!("{other:?}"),
    }
    assert!(p.is_existence());
}

#[test]
fn every_refusal_has_its_words() {
    for (src, words) in [
        ("invoice(", "expected identifier at byte 8"),
        ("invoice[", "expected '(' at byte 7"),
        ("invoice(name='x", "unterminated string"),
        ("invoice() extra", "trailing input at byte 10: extra"),
        ("invoice(id=?).exists", "unexpected Some('?') at byte 11"),
        ("invoice(id=", "unexpected None at byte 11"),
        ("invoice(id=-).exists", "bad number '-'"),
        ("invoice(id=99999999999999999999).exists", "bad number '99999999999999999999'"),
    ] {
        assert_eq!(Pred::parse(src).unwrap_err().to_string(), words, "{src}");
    }
}

#[test]
fn an_unexpected_character_is_shown_as_a_literal() {
    let e = Pred::parse("invoice(id=\u{7f}).exists").unwrap_err().to_string();
    assert_eq!(e, "unexpected Some('\\u{7f}') at byte 11");
}

#[test]
fn a_quoted_text_is_read_byte_by_byte() {
    let p = Pred::parse("customer(name='Caf\u{e9}').exists").unwrap();
    assert_eq!(p.arg("name").unwrap().as_str(), Some("Caf\u{c3}\u{a9}"));
    let p = Pred::parse("customer(name='O\\'Neil \\\\ Sons').exists").unwrap();
    assert_eq!(p.arg("name").unwrap().as_str(), Some("O'Neil \\ Sons"));
    assert_eq!(p.to_string(), "customer(name='O\\'Neil \\ Sons').exists");
}

#[test]
fn an_identifier_is_a_text() {
    // The bytes of an identifier are letters and numbers one by one, and a text taken together.
    let p = Pred::parse("t\u{ea}te(id=1).exists").unwrap();
    assert_eq!(p.entity, "t\u{ea}te");
    let e = Pred::parse("gr\u{f6}\u{df}e(id=1).exists").unwrap_err();
    assert!(matches!(e, ParseError::Expected { .. }));
}

#[test]
fn filling_in_replaces_what_is_bound_and_nothing_else() {
    let p = Pred::parse("invoice(customer=$who).amount=$cents").unwrap();
    let bind = vec![("who".to_string(), Val::Str("Acme".to_string()))];
    assert_eq!(p.subst(&bind).to_string(), "invoice(customer='Acme').amount=$cents");
}

#[test]
fn byte_classes_are_those_of_the_characters() {
    for b in 0..=255u8 {
        let c = b as char;
        assert_eq!(is_white(b), c.is_whitespace(), "{b}");
        assert_eq!(is_letter(b), c.is_alphabetic(), "{b}");
        assert_eq!(is_alnum(b), c.is_alphanumeric(), "{b}");
    }
}

#[test]
fn a_spread_variable_becomes_its_elements() {
    let ids = |xs: &[i64]| vec![("ids".to_string(), Val::List(xs.iter().map(|n| Val::Num(*n)).collect()))];
    let p = Pred::parse("report(invoices=[$ids[]]).exists").unwrap();
    assert_eq!(p.subst(&ids(&[1, 2])).to_string(), "report(invoices=[1,2]).exists");
    let p = Pred::parse("report(invoices=[7,$ids[],$ids,$other[]]).exists").unwrap();
    assert_eq!(p.subst(&ids(&[1, 2])).to_string(), "report(invoices=[7,1,2,[1,2],$other[]]).exists");
    assert_eq!(p.subst(&ids(&[])).to_string(), "report(invoices=[7,[],$other[]]).exists");
    // Outside a list, and bound to what is no list, it is an ordinary variable.
    let p = Pred::parse("report(invoices=$ids[],one=[$ids[]]).exists").unwrap();
    assert_eq!(p.subst(&ids(&[1])).to_string(), "report(invoices=[1],one=[1]).exists");
    let one = vec![("ids".to_string(), Val::Num(3))];
    assert_eq!(p.subst(&one).to_string(), "report(invoices=3,one=[3]).exists");
}

#[test]
fn a_double_quote_is_shown_as_it_stands() {
    let e = Pred::parse("invoice(id=\").exists").unwrap_err().to_string();
    assert_eq!(e, "unexpected Some('\"') at byte 11");
}

#[test]
fn what_is_read_reads_back() {
    for src in [
        " invoice ( id = 7 , to = [ 'a' , each( $x ) ] ) . status = 'O\\'Neil' ",
        "a(x=each([1,2]),y=all(b(z=-5))).exists",
        "a()",
        "a().f",
    ] {
        let p = Pred::parse(src).unwrap();
        assert!(Pred::parse(&p.to_string()).unwrap() == p, "{src}");
    }
    // A backslash in a string is written as it stands, and read as an escape.
    let p = Pred::parse("a(x='\\\\b').exists").unwrap();
    assert!(Pred::parse(&p.to_string()).unwrap() != p);
}

#[test]
fn unrolling_gives_the_picks_in_order() {
    let texts = |src: &str| Pred::parse(src).unwrap().unroll().iter().map(|p| p.to_string()).collect::<Vec<_>>();
    assert_eq!(texts("a(x=1,y=all(2)).exists"), ["a(x=1,y=all(2)).exists"]);
    assert_eq!(texts("a(x=each([3,1]),y=each([9,8])).exists"), ["a(x=3,y=9).exists", "a(x=1,y=8).exists"]);
    assert!(texts("a(x=each([])).exists").is_empty());
}

#[test]
fn filling_in_twice_is_filling_in_once() {
    let p = Pred::parse("a(x=$n,y=[$ns[],b(z=$n)],w=$free).f=all($n)").unwrap();
    assert!(p.subst(&Vec::new()) == p);
    let bind = vec![("n".to_string(), Val::Num(1)), ("ns".to_string(), Val::List(vec![Val::Num(2), Val::Bool(true)]))];
    let once = p.subst(&bind);
    assert_eq!(once.to_string(), "a(x=1,y=[2,true,b(z=1)],w=$free).f=all(1)");
    assert!(once.subst(&bind) == once);
}

#[test]
fn texts_tell_predicates_apart() {
    let arg = |x: &str, y: &str| {
        let args = vec![("x".to_string(), Val::Str(x.to_string())), ("y".to_string(), Val::Str(y.to_string()))];
        Pred { entity: "a".to_string(), args, field: "exists".to_string(), value: Val::Bool(true) }
    };
    // A string that ends in a backslash looks as if it went on.
    let all = [arg("b\\", "c"), arg("b\\", ",y="), arg("b',y=", "c"), arg("b", "c"), arg("b\\'", "c"), arg("b'", "c")];
    for (i, p) in all.iter().enumerate() {
        for (j, q) in all.iter().enumerate() {
            assert_eq!(p.to_string() == q.to_string(), i == j);
        }
    }
}
