use deed::dql_ast::{Direction, Expression, Literal, Query};
use deed::dql_parser::Parser;

#[test]
fn test_parse_simple_select() {
    let query = "FROM Users WHERE age = 25 SELECT name";
    let result = Parser::parse(query).unwrap();

    if let Query::Select(select) = result {
        assert_eq!(select.from.collection, "Users");
        assert!(select.traverse.is_none());
        assert!(select.where_clause.is_some());
    } else {
        panic!("Expected SELECT query");
    }
}

#[test]
fn test_parse_hybrid_query() {
    let query = "FROM Users u TRAVERSE -[:PURCHASED]-> p WHERE p.price > 100 SELECT u.name, p.name";
    let result = Parser::parse(query).unwrap();

    if let Query::Select(select) = result {
        assert_eq!(select.from.collection, "Users");
        assert_eq!(select.from.alias, Some("u".to_string()));
        assert!(select.traverse.is_some());

        let traverse = select.traverse.unwrap();
        assert_eq!(traverse.patterns.len(), 1);
        assert_eq!(traverse.patterns[0].edge_type, Some("PURCHASED".to_string()));
        assert_eq!(traverse.patterns[0].target_alias, Some("p".to_string()));
    } else {
        panic!("Expected SELECT query");
    }
}

#[test]
fn test_parse_variable_length_traverse() {
    let query = "FROM Users TRAVERSE -[:FOLLOWS*1..3]-> friend SELECT friend.name";
    let result = Parser::parse(query).unwrap();

    if let Query::Select(select) = result {
        let traverse = select.traverse.unwrap();
        assert_eq!(traverse.patterns[0].min_hops, 1);
        assert_eq!(traverse.patterns[0].max_hops, 3);
    } else {
        panic!("Expected SELECT query");
    }
}

#[test]
fn test_parse_with_order_and_limit() {
    let query = "FROM Products WHERE price > 50 SELECT name, price ORDER BY price DESC LIMIT 10";
    let result = Parser::parse(query).unwrap();

    if let Query::Select(select) = result {
        assert!(select.order_by.is_some());
        assert_eq!(select.limit, Some(10));

        let order_by = select.order_by.unwrap();
        assert_eq!(order_by.fields[0].ascending, false);
    } else {
        panic!("Expected SELECT query");
    }
}

fn property_name(e: &Expression) -> String {
    match e {
        Expression::Property(p) => p.property.clone(),
        other => panic!("expected a property, got {:?}", other),
    }
}

#[test]
fn precedence_and_left_grouping() {
    let q = Parser::parse("FROM T WHERE a OR b AND NOT c SELECT x - y - z, m * n + k").unwrap();
    let select = match q {
        Query::Select(s) => s,
        other => panic!("unexpected query {:?}", other),
    };
    match &select.where_clause.as_ref().unwrap().condition {
        Expression::Or(l, r) => {
            assert_eq!(property_name(l), "a");
            match r.as_ref() {
                Expression::And(b, not_c) => {
                    assert_eq!(property_name(b), "b");
                    assert!(matches!(not_c.as_ref(), Expression::Not(_)));
                }
                other => panic!("unexpected conjunction {:?}", other),
            }
        }
        other => panic!("unexpected condition {:?}", other),
    }
    match &select.select.fields[0].expression {
        Expression::Subtract(l, z) => {
            assert!(matches!(l.as_ref(), Expression::Subtract(_, _)));
            assert_eq!(property_name(z), "z");
        }
        other => panic!("unexpected difference {:?}", other),
    }
    match &select.select.fields[1].expression {
        Expression::Add(l, k) => {
            assert!(matches!(l.as_ref(), Expression::Multiply(_, _)));
            assert_eq!(property_name(k), "k");
        }
        other => panic!("unexpected sum {:?}", other),
    }
}

#[test]
fn patterns_directions_and_hop_defaults() {
    let q = Parser::parse("FROM A a TRAVERSE <- b, <->[*2] c, -[:R*3.]-> d, -[]-> e SELECT a.x AS y").unwrap();
    let select = match q {
        Query::Select(s) => s,
        other => panic!("unexpected query {:?}", other),
    };
    let ps = select.traverse.unwrap().patterns;
    assert_eq!(ps.len(), 4);
    assert_eq!(ps[0].direction, Direction::Incoming);
    assert_eq!(ps[0].target_alias.as_deref(), Some("b"));
    assert_eq!((ps[0].min_hops, ps[0].max_hops), (1, 1));
    assert_eq!(ps[1].direction, Direction::Both);
    assert_eq!((ps[1].min_hops, ps[1].max_hops), (2, 2));
    assert_eq!(ps[2].edge_type.as_deref(), Some("R"));
    assert_eq!((ps[2].min_hops, ps[2].max_hops), (3, usize::MAX));
    assert_eq!(ps[3].direction, Direction::Outgoing);
    assert_eq!(ps[3].target_alias.as_deref(), Some("e"));
    assert_eq!(select.select.fields[0].alias.as_deref(), Some("y"));
}

#[test]
fn mutations_parse() {
    match Parser::parse("INSERT INTO Users VALUES ({name: 'Ann', age: 30, ok: true})").unwrap() {
        Query::Insert(q) => {
            assert_eq!(q.collection, "Users");
            assert_eq!(q.properties.len(), 3);
            assert_eq!(q.properties[0].0, "name");
            assert!(matches!(&q.properties[0].1, Literal::String(s) if s == "Ann"));
            assert!(matches!(q.properties[1].1, Literal::Integer(30)));
            assert!(matches!(q.properties[2].1, Literal::Bool(true)));
        }
        other => panic!("unexpected query {:?}", other),
    }
    match Parser::parse("UPDATE Users SET age = age + 1, city = 'Oslo' WHERE name = 'Ann'").unwrap() {
        Query::Update(q) => {
            assert_eq!(q.collection, "Users");
            assert_eq!(q.set.len(), 2);
            assert!(q.where_clause.is_some());
        }
        other => panic!("unexpected query {:?}", other),
    }
    match Parser::parse("DELETE FROM Users").unwrap() {
        Query::Delete(q) => {
            assert_eq!(q.collection, "Users");
            assert!(q.where_clause.is_none());
        }
        other => panic!("unexpected query {:?}", other),
    }
    match Parser::parse("CREATE (a.id) -[:KNOWS]-> (b.id) {since: 2020}").unwrap() {
        Query::Create(q) => {
            assert_eq!(q.edge_type, "KNOWS");
            assert_eq!(q.properties.len(), 1);
        }
        other => panic!("unexpected query {:?}", other),
    }
}

#[test]
fn errors_name_what_was_expected() {
    assert_eq!(Parser::parse("SELECT x").unwrap_err(), "Expected query keyword, got Select");
    assert_eq!(Parser::parse("FROM Users WHERE").unwrap_err(), "Unexpected token in expression: Eof");
    assert_eq!(Parser::parse("FROM Users x y").unwrap_err(), "Expected Select, got Identifier(\"y\")");
    assert_eq!(Parser::parse("FROM 5").unwrap_err(), "Expected identifier, got Integer(5)");
    assert_eq!(
        Parser::parse("FROM A TRAVERSE SELECT x").unwrap_err(),
        "TRAVERSE requires at least one pattern"
    );
    assert_eq!(Parser::parse("FROM A TRAVERSE x SELECT y").unwrap_err(), "Expected edge direction, got Identifier(\"x\")");
    assert_eq!(Parser::parse("INSERT INTO T VALUES ({a: b})").unwrap_err(), "Expected literal, got Identifier(\"b\")");
    assert_eq!(Parser::parse("FROM A SELECT x LIMIT y").unwrap_err(), "Expected integer, got Identifier(\"y\")");
    assert_eq!(Parser::parse("FROM A TRAVERSE -> e SELECT y").unwrap_err(), "Expected edge direction, got Arrow");
    assert!(Parser::parse("FROM 'open").is_err());
}

#[test]
fn error_texts_name_tokens_as_debug_writes_them() {
    assert_eq!(Parser::parse("FROM 3.140").unwrap_err(), "Expected identifier, got Float(3.14)");
    assert_eq!(Parser::parse("FROM 007.0").unwrap_err(), "Expected identifier, got Float(7.0)");
    assert_eq!(Parser::parse("FROM -").unwrap_err(), "Expected identifier, got Minus");
    assert_eq!(Parser::parse("FROM \"a\\\"b\"").unwrap_err(), "Expected identifier, got String(\"a\\\"b\")");
}
