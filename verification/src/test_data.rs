use vstd::prelude::*;

verus! {

/// A sample of heterogeneous documents: some carry a `message`, some a
/// `priority`, some an `active` flag, and one none of these — the shapes a
/// predicate must cope with.
pub fn get_test_documents() -> (r: Vec<(&'static str, &'static str)>)
    ensures
        r@.len() == 5,
        r@[0].0@ == "1"@ && r@[0].1@ == r#"{"message": "hello world", "priority": 5}"#@,
        r@[1].0@ == "2"@ && r@[1].1@ == r#"{"foo": "bar"}"#@,
        r@[2].0@ == "3"@ && r@[2].1@ == r#"{"message": "HELLO", "active": true, "priority": 9}"#@,
        r@[3].0@ == "4"@ && r@[3].1@ == r#"{"active": false}"#@,
        r@[4].0@ == "5"@ && r@[4].1@ == r#"{"message": "bonjour", "priority": 7}"#@,
{
    let mut v: Vec<(&'static str, &'static str)> = Vec::new();
    v.push(("1", r#"{"message": "hello world", "priority": 5}"#));
    v.push(("2", r#"{"foo": "bar"}"#));
    v.push(("3", r#"{"message": "HELLO", "active": true, "priority": 9}"#));
    v.push(("4", r#"{"active": false}"#));
    v.push(("5", r#"{"message": "bonjour", "priority": 7}"#));
    v
}

/// A named predicate source together with a human-readable description.
pub struct UdfDefinition {
    pub name: &'static str,
    pub code: &'static str,
    pub description: &'static str,
}

/// Three sample predicates: a case-insensitive substring check on `message`,
/// an inclusive threshold on `priority`, and a strict boolean test on
/// `active`.
pub fn get_test_udfs() -> (r: Vec<UdfDefinition>)
    ensures
        r@.len() == 3,
        r@[0].name@ == "has_hello"@,
        r@[0].description@ == "Documents containing 'hello' (case-insensitive)"@,
        r@[0].code@
            == "\n                function(val)\n                    if val.message == nil then\n                        return false\n                    end\n                    return string.lower(val.message):find(\"hello\") ~= nil\n                end\n            "@,
        r@[1].name@ == "high_priority"@,
        r@[1].description@ == "Documents with priority >= 8"@,
        r@[1].code@
            == "\n                function(val)\n                    return val.priority and val.priority >= 8\n                end\n            "@,
        r@[2].name@ == "is_active"@,
        r@[2].description@ == "Documents where active == true"@,
        r@[2].code@
            == "\n                function(val)\n                    return val.active == true\n                end\n            "@,
{
    let mut v: Vec<UdfDefinition> = Vec::new();
    v.push(
        UdfDefinition {
            name: "has_hello",
            description: "Documents containing 'hello' (case-insensitive)",
            code: "\n                function(val)\n                    if val.message == nil then\n                        return false\n                    end\n                    return string.lower(val.message):find(\"hello\") ~= nil\n                end\n            ",
        },
    );
    v.push(
        UdfDefinition {
            name: "high_priority",
            description: "Documents with priority >= 8",
            code: "\n                function(val)\n                    return val.priority and val.priority >= 8\n                end\n            ",
        },
    );
    v.push(
        UdfDefinition {
            name: "is_active",
            description: "Documents where active == true",
            code: "\n                function(val)\n                    return val.active == true\n                end\n            ",
        },
    );
    v
}

} // verus!
