use discors::codec::{from_outside, to_wire};
use discors::term::Term;
use num_bigint::BigInt;

fn atom(name: &str) -> eetf::Term {
    eetf::Term::Atom(eetf::Atom { name: name.to_string() })
}

fn fix(value: i32) -> eetf::Term {
    eetf::Term::FixInteger(eetf::FixInteger { value })
}

fn pid() -> eetf::Term {
    eetf::Term::Pid(eetf::Pid { node: eetf::Atom::from("n"), id: 1, serial: 2, creation: 3 })
}

#[test]
fn scalars_come_over_with_their_values() {
    assert_eq!(from_outside(&atom("ok")), Some(Term::Atom("ok".to_string())));
    assert_eq!(from_outside(&fix(-5)), Some(Term::FixInteger(-5)));
    let binary = eetf::Term::Binary(eetf::Binary { bytes: vec![1, 2, 3] });
    assert_eq!(from_outside(&binary), Some(Term::Binary(vec![1, 2, 3])));
    let float = eetf::Term::Float(eetf::Float { value: 1.5 });
    assert_eq!(from_outside(&float), Some(Term::Float(1.5f64.to_bits())));
}

#[test]
fn big_integers_come_over_as_sign_and_magnitude() {
    let big = |value: i64| eetf::Term::BigInteger(eetf::BigInteger::from(value));
    assert_eq!(from_outside(&big(258)), Some(Term::BigInteger(false, vec![2, 1])));
    assert_eq!(from_outside(&big(-5)), Some(Term::BigInteger(true, vec![5])));
    assert_eq!(from_outside(&big(0)), Some(Term::BigInteger(false, vec![])));
}

#[test]
fn containers_come_over_with_what_they_hold() {
    let list = eetf::Term::List(eetf::List { elements: vec![fix(1), atom("a")] });
    assert_eq!(
        from_outside(&list),
        Some(Term::List(vec![Term::FixInteger(1), Term::Atom("a".to_string())]))
    );
    let tuple = eetf::Term::Tuple(eetf::Tuple { elements: vec![list.clone()] });
    assert_eq!(
        from_outside(&tuple),
        Some(Term::Tuple(vec![Term::List(vec![
            Term::FixInteger(1),
            Term::Atom("a".to_string())
        ])]))
    );
    let map = eetf::Term::Map(eetf::Map { entries: vec![(atom("k"), fix(2)), (fix(3), tuple)] });
    match from_outside(&map) {
        Some(Term::Dict(entries)) => {
            assert_eq!(entries.len(), 2);
            assert_eq!(entries[0], (Term::Atom("k".to_string()), Term::FixInteger(2)));
            assert_eq!(entries[1].0, Term::FixInteger(3));
        }
        other => panic!("unexpected {:?}", other),
    }
}

#[test]
fn kinds_that_are_not_modelled_do_not_come_over() {
    assert_eq!(from_outside(&pid()), None);
    let improper = eetf::Term::ImproperList(eetf::ImproperList {
        elements: vec![fix(1)],
        last: Box::new(fix(2)),
    });
    assert_eq!(from_outside(&improper), None);
    let bits = eetf::Term::BitBinary(eetf::BitBinary { bytes: vec![1], tail_bits_size: 3 });
    assert_eq!(from_outside(&bits), None);
    let reference = eetf::Term::Reference(eetf::Reference::from(("n", 1)));
    assert_eq!(from_outside(&reference), None);
    let port = eetf::Term::Port(eetf::Port::from(("n", 1)));
    assert_eq!(from_outside(&port), None);
    let fun = eetf::Term::ExternalFun(eetf::ExternalFun::from(("m", "f", 1)));
    assert_eq!(from_outside(&fun), None);
}

#[test]
fn one_kind_that_is_not_modelled_spoils_the_whole() {
    let list = eetf::Term::List(eetf::List { elements: vec![fix(1), pid()] });
    assert_eq!(from_outside(&list), None);
    let as_key = eetf::Term::Map(eetf::Map { entries: vec![(pid(), fix(1))] });
    assert_eq!(from_outside(&as_key), None);
    let as_value = eetf::Term::Map(eetf::Map { entries: vec![(fix(1), pid())] });
    assert_eq!(from_outside(&as_value), None);
    let deep = eetf::Term::Tuple(eetf::Tuple { elements: vec![atom("a"), list] });
    assert_eq!(from_outside(&deep), None);
}

#[test]
fn terms_go_over_with_their_values() {
    assert_eq!(to_wire(&Term::Atom("ok".to_string())), atom("ok"));
    assert_eq!(to_wire(&Term::FixInteger(9)), fix(9));
    assert_eq!(
        to_wire(&Term::BigInteger(true, vec![0, 1])),
        eetf::Term::BigInteger(eetf::BigInteger { value: BigInt::from(-256) })
    );
    assert_eq!(
        to_wire(&Term::BigInteger(true, vec![])),
        eetf::Term::BigInteger(eetf::BigInteger { value: BigInt::from(0) })
    );
    assert_eq!(
        to_wire(&Term::Float(2.25f64.to_bits())),
        eetf::Term::Float(eetf::Float { value: 2.25 })
    );
    match to_wire(&Term::Float(f64::NAN.to_bits())) {
        eetf::Term::Float(f) => assert_eq!(f.value.to_bits(), f64::NAN.to_bits()),
        other => panic!("unexpected {:?}", other),
    }
    assert_eq!(
        to_wire(&Term::Binary(vec![7])),
        eetf::Term::Binary(eetf::Binary { bytes: vec![7] })
    );
    let term = Term::Dict(vec![(
        Term::Atom("k".to_string()),
        Term::List(vec![Term::Tuple(vec![Term::FixInteger(1)])]),
    )]);
    let expected = eetf::Term::Map(eetf::Map {
        entries: vec![(
            atom("k"),
            eetf::Term::List(eetf::List {
                elements: vec![eetf::Term::Tuple(eetf::Tuple { elements: vec![fix(1)] })],
            }),
        )],
    });
    assert_eq!(to_wire(&term), expected);
    assert_eq!(from_outside(&expected), Some(term));
}

#[test]
fn a_list_that_would_be_misread_goes_over_with_an_empty_tail() {
    let term = Term::List(vec![Term::FixInteger(-1), Term::FixInteger(2)]);
    assert_eq!(
        to_wire(&term),
        eetf::Term::ImproperList(eetf::ImproperList {
            elements: vec![fix(-1), fix(2)],
            last: Box::new(eetf::Term::List(eetf::List { elements: vec![] })),
        })
    );
    let plain = Term::List(vec![Term::FixInteger(1), Term::FixInteger(2)]);
    assert_eq!(to_wire(&plain), eetf::Term::List(eetf::List { elements: vec![fix(1), fix(2)] }));
    let wide = Term::List(vec![Term::FixInteger(-1), Term::FixInteger(256)]);
    assert_eq!(to_wire(&wide), eetf::Term::List(eetf::List { elements: vec![fix(-1), fix(256)] }));
    let empty = Term::List(vec![]);
    assert_eq!(to_wire(&empty), eetf::Term::List(eetf::List { elements: vec![] }));
    let inside = Term::Tuple(vec![Term::List(vec![Term::FixInteger(-7)])]);
    assert_eq!(
        to_wire(&inside),
        eetf::Term::Tuple(eetf::Tuple {
            elements: vec![eetf::Term::ImproperList(eetf::ImproperList {
                elements: vec![fix(-7)],
                last: Box::new(eetf::Term::List(eetf::List { elements: vec![] })),
            })],
        })
    );
}
