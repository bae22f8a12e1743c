//! The `component` attribute of a component type: `storage = "dense"` or
//! `storage = "sparse"`.

use vstd::prelude::*;

use super::component::StoragePolicy;

verus! {

/// One `key = "value"` item inside an attribute; `value` is `None` when
/// no `=` follows the key.
pub struct NestedMeta {
    pub path: String,
    pub value: Option<String>,
}

/// An attribute on a type: its path and its items.
pub struct ComponentAttr {
    pub path: String,
    pub nested: Vec<NestedMeta>,
}

pub open spec fn invalid_storage_text(s: Seq<char>) -> Seq<char> {
    "Invalid storage type `"@ + s + "`, expected 'dense' or 'sparse'."@
}

/// The policy that the items `nested` of a `component` attribute set,
/// starting from `policy`, or the text of the first error.
pub open spec fn parse_nested(policy: StoragePolicy, nested: Seq<NestedMeta>) -> Result<StoragePolicy, Seq<char>>
    decreases nested.len(),
{
    if nested.len() == 0 {
        Ok(policy)
    } else {
        let m = nested[0];
        if m.path@ != "storage"@ {
            Err("Unsupported attribute"@)
        } else {
            match m.value {
                None => Err("expected `=`"@),
                Some(v) => if v@ == "dense"@ {
                    parse_nested(StoragePolicy::Dense, nested.drop_first())
                } else if v@ == "sparse"@ {
                    parse_nested(StoragePolicy::Sparse, nested.drop_first())
                } else {
                    Err(invalid_storage_text(v@))
                },
            }
        }
    }
}

/// The policy that the attributes `attrs` set, starting from `policy`:
/// only attributes with path `component` count.
pub open spec fn parse_attrs(policy: StoragePolicy, attrs: Seq<ComponentAttr>) -> Result<StoragePolicy, Seq<char>>
    decreases attrs.len(),
{
    if attrs.len() == 0 {
        Ok(policy)
    } else if attrs[0].path@ == "component"@ {
        match parse_nested(policy, attrs[0].nested@) {
            Ok(p) => parse_attrs(p, attrs.drop_first()),
            Err(e) => Err(e),
        }
    } else {
        parse_attrs(policy, attrs.drop_first())
    }
}

fn equals_literal(s: &String, lit: &str) -> (b: bool)
    ensures
        b == (s@ == lit@),
{
    let l = String::from_str(lit);
    *s == l
}

fn parse_nested_exec(start: StoragePolicy, nested: &Vec<NestedMeta>) -> (r: Result<StoragePolicy, String>)
    ensures
        match (r, parse_nested(start, nested@)) {
            (Ok(p), Ok(q)) => p == q,
            (Err(m), Err(t)) => m@ == t,
            _ => false,
        },
{
    let mut policy = start;
    let mut i: usize = 0;
    assert(nested@.subrange(0, nested@.len() as int) =~= nested@);
    while i < nested.len()
        invariant
            0 <= i <= nested@.len(),
            parse_nested(policy, nested@.subrange(i as int, nested@.len() as int)) == parse_nested(
                start,
                nested@,
            ),
        decreases nested@.len() - i,
    {
        let ghost rest = nested@.subrange(i as int, nested@.len() as int);
        proof {
            assert(rest.drop_first() =~= nested@.subrange(i + 1, nested@.len() as int));
            assert(rest[0] == nested@[i as int]);
        }
        let m = &nested[i];
        if !equals_literal(&m.path, "storage") {
            return Err(String::from_str("Unsupported attribute"));
        }
        match &m.value {
            None => return Err(String::from_str("expected `=`")),
            Some(v) => {
                if equals_literal(v, "dense") {
                    policy = StoragePolicy::Dense;
                } else if equals_literal(v, "sparse") {
                    policy = StoragePolicy::Sparse;
                } else {
                    let mut text = String::from_str("Invalid storage type `");
                    text.append(v.as_str());
                    text.append("`, expected 'dense' or 'sparse'.");
                    return Err(text);
                }
            },
        }
        i = i + 1;
    }
    proof {
        assert(nested@.subrange(i as int, nested@.len() as int).len() == 0);
    }
    Ok(policy)
}

/// The storage policy that the attributes `attrs` of a component type ask
/// for, `Dense` when none does; the text of the first error otherwise.
pub fn parse_component_attr(attrs: &[ComponentAttr]) -> (r: Result<StoragePolicy, String>)
    ensures
        match (r, parse_attrs(StoragePolicy::Dense, attrs@)) {
            (Ok(p), Ok(q)) => p == q,
            (Err(m), Err(t)) => m@ == t,
            _ => false,
        },
{
    let mut policy = StoragePolicy::Dense;
    let mut i: usize = 0;
    assert(attrs@.subrange(0, attrs@.len() as int) =~= attrs@);
    while i < attrs.len()
        invariant
            0 <= i <= attrs@.len(),
            parse_attrs(policy, attrs@.subrange(i as int, attrs@.len() as int)) == parse_attrs(
                StoragePolicy::Dense,
                attrs@,
            ),
        decreases attrs@.len() - i,
    {
        let ghost rest = attrs@.subrange(i as int, attrs@.len() as int);
        proof {
            assert(rest.drop_first() =~= attrs@.subrange(i + 1, attrs@.len() as int));
            assert(rest[0] == attrs@[i as int]);
        }
        let attr = &attrs[i];
        if equals_literal(&attr.path, "component") {
            match parse_nested_exec(policy, &attr.nested) {
                Ok(p) => policy = p,
                Err(e) => return Err(e),
            }
        }
        i = i + 1;
    }
    proof {
        assert(attrs@.subrange(i as int, attrs@.len() as int).len() == 0);
    }
    Ok(policy)
}

} // verus!

verus! {

/// Whether no attribute of `attrs` has the path `component`.
pub open spec fn no_component_attr(attrs: Seq<ComponentAttr>) -> bool {
    forall|k: int| 0 <= k < attrs.len() ==> (#[trigger] attrs[k]).path@ != "component"@
}

/// Attributes whose path is not `component` are skipped: inserting one
/// anywhere among the attributes leaves the outcome unchanged.
pub proof fn lemma_other_attributes_ignored(policy: StoragePolicy, attrs: Seq<ComponentAttr>, i: int, x: ComponentAttr)
    requires
        0 <= i <= attrs.len(),
        x.path@ != "component"@,
    ensures
        parse_attrs(policy, attrs.insert(i, x)) == parse_attrs(policy, attrs),
    decreases attrs.len(),
{
    let ins = attrs.insert(i, x);
    if i == 0 {
        assert(ins[0] == x);
        assert(ins.drop_first() =~= attrs);
    } else {
        assert(ins[0] == attrs[0]);
        assert(ins.drop_first() =~= attrs.drop_first().insert(i - 1, x));
        if attrs[0].path@ == "component"@ {
            match parse_nested(policy, attrs[0].nested@) {
                Ok(p) => lemma_other_attributes_ignored(p, attrs.drop_first(), i - 1, x),
                Err(e) => {},
            }
        } else {
            lemma_other_attributes_ignored(policy, attrs.drop_first(), i - 1, x);
        }
    }
}

/// Without a `component` attribute the starting policy stands.
pub proof fn lemma_only_other_attributes(policy: StoragePolicy, attrs: Seq<ComponentAttr>)
    requires
        no_component_attr(attrs),
    ensures
        parse_attrs(policy, attrs) == Ok::<StoragePolicy, Seq<char>>(policy),
    decreases attrs.len(),
{
    if attrs.len() > 0 {
        assert(attrs[0].path@ != "component"@);
        assert(no_component_attr(attrs.drop_first())) by {
            assert forall|k: int| 0 <= k < attrs.drop_first().len() implies
                (#[trigger] attrs.drop_first()[k]).path@ != "component"@ by {
                assert(attrs.drop_first()[k] == attrs[k + 1]);
            }
        }
        lemma_only_other_attributes(policy, attrs.drop_first());
    }
}

/// A single `component(storage = "...")` attribute decides the policy
/// wherever it stands among other attributes: `dense` gives `Dense`,
/// `sparse` gives `Sparse`, and any other value is refused with its text.
pub proof fn lemma_component_attribute_anywhere(
    policy: StoragePolicy,
    attrs: Seq<ComponentAttr>,
    i: int,
    c: ComponentAttr,
    v: String,
)
    requires
        0 <= i <= attrs.len(),
        no_component_attr(attrs),
        c.path@ == "component"@,
        c.nested@.len() == 1,
        c.nested@[0].path@ == "storage"@,
        c.nested@[0].value == Some(v),
    ensures
        v@ == "dense"@ ==> parse_attrs(policy, attrs.insert(i, c)) == Ok::<StoragePolicy, Seq<char>>(
            StoragePolicy::Dense,
        ),
        v@ == "sparse"@ ==> parse_attrs(policy, attrs.insert(i, c)) == Ok::<StoragePolicy, Seq<char>>(
            StoragePolicy::Sparse,
        ),
        v@ != "dense"@ && v@ != "sparse"@ ==> parse_attrs(policy, attrs.insert(i, c)) == Err::<
            StoragePolicy,
            Seq<char>,
        >(invalid_storage_text(v@)),
    decreases attrs.len(),
{
    let ins = attrs.insert(i, c);
    let nested = c.nested@;
    reveal_strlit("dense");
    reveal_strlit("sparse");
    assert("dense"@ != "sparse"@) by {
        assert("dense"@[0] != "sparse"@[0]);
    }
    assert(nested.drop_first().len() == 0);
    assert(parse_nested(StoragePolicy::Dense, nested.drop_first()) == Ok::<StoragePolicy, Seq<char>>(StoragePolicy::Dense));
    assert(parse_nested(StoragePolicy::Sparse, nested.drop_first()) == Ok::<StoragePolicy, Seq<char>>(StoragePolicy::Sparse));
    if i == 0 {
        assert(ins[0] == c);
        assert(ins.drop_first() =~= attrs);
        lemma_only_other_attributes(StoragePolicy::Dense, attrs);
        lemma_only_other_attributes(StoragePolicy::Sparse, attrs);
    } else {
        assert(ins[0] == attrs[0]);
        assert(attrs[0].path@ != "component"@);
        assert(ins.drop_first() =~= attrs.drop_first().insert(i - 1, c));
        assert(no_component_attr(attrs.drop_first())) by {
            assert forall|k: int| 0 <= k < attrs.drop_first().len() implies
                (#[trigger] attrs.drop_first()[k]).path@ != "component"@ by {
                assert(attrs.drop_first()[k] == attrs[k + 1]);
            }
        }
        lemma_component_attribute_anywhere(policy, attrs.drop_first(), i - 1, c, v);
    }
}

} // verus!
