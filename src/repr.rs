//! Textual form of a collection from the forms of its items.

use vstd::prelude::*;

verus! {

/// The items' forms separated by `, `.
pub open spec fn join_parts(parts: Seq<Seq<char>>) -> Seq<char>
    decreases parts.len(),
{
    if parts.len() == 0 {
        seq![]
    } else if parts.len() == 1 {
        parts[0]
    } else {
        join_parts(parts.drop_last()) + seq![',', ' '] + parts.last()
    }
}

/// `prefix`, the joined parts and `suffix`, all wrapped in `name(` and `)`
/// where a class name is given.
pub open spec fn collection_repr_spec(
    class_name: Option<Seq<char>>,
    prefix: Seq<char>,
    suffix: Seq<char>,
    parts: Seq<Seq<char>>,
) -> Seq<char> {
    let body = prefix + join_parts(parts) + suffix;
    match class_name {
        Some(name) => name + seq!['('] + body + seq![')'],
        None => body,
    }
}

pub open spec fn views_of(parts: Seq<String>) -> Seq<Seq<char>> {
    parts.map_values(|p: String| p@)
}

/// Writes a collection as `prefix`, the items' forms separated by `, `, and
/// `suffix`; with a class name, the whole is wrapped as `name(...)`. There
/// must be at least one item.
pub fn collection_repr(class_name: Option<&str>, prefix: &str, suffix: &str, parts: &[String]) -> (r: String)
    requires
        parts@.len() >= 1,
    ensures
        r@ == collection_repr_spec(
            match class_name {
                Some(n) => Some(n@),
                None => None,
            },
            prefix@,
            suffix@,
            views_of(parts@),
        ),
{
    proof {
        reveal_strlit("(");
        reveal_strlit(")");
    }
    let mut repr = String::new();
    let ghost head: Seq<char> = match class_name {
        Some(n) => n@ + seq!['('],
        None => seq![],
    };
    if let Some(name) = class_name {
        repr.append(name);
        repr.append("(");
    }
    repr.append(prefix);
    repr.append(parts[0].as_str());
    assert(views_of(parts@).take(1) =~= seq![parts@[0]@]);
    let mut i: usize = 1;
    while i < parts.len()
        invariant
            1 <= i <= parts@.len(),
            repr@ == head + prefix@ + join_parts(views_of(parts@).take(i as int)),
        decreases parts@.len() - i,
    {
        repr.append(", ");
        repr.append(parts[i].as_str());
        proof {
            let t = views_of(parts@).take(i as int + 1);
            assert(t.drop_last() =~= views_of(parts@).take(i as int));
            assert(t.last() == parts@[i as int]@);
            assert(join_parts(t) == join_parts(t.drop_last()) + seq![',', ' '] + t.last());
            reveal_strlit(", ");
            assert(", "@ =~= seq![',', ' ']);
        }
        i = i + 1;
        assert(repr@ =~= head + prefix@ + join_parts(views_of(parts@).take(i as int)));
    }
    assert(views_of(parts@).take(i as int) =~= views_of(parts@));
    repr.append(suffix);
    if class_name.is_some() {
        repr.append(")");
    }
    assert(repr@ =~= collection_repr_spec(
        match class_name {
            Some(n) => Some(n@),
            None => None,
        },
        prefix@,
        suffix@,
        views_of(parts@),
    ));
    repr
}

} // verus!
