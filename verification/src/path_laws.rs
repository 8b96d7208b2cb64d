//! Where paths lead.

use crate::path::{
    are_components, clean_path, clean_steps, clean_steps_clean, clean_steps_of_clean, is_name,
    join_path, logical_join, parts_less, relative_components, relative_parts, scan_relative,
};
use crate::text::join_texts;
use vstd::prelude::*;

verus! {

/// A name and the way back up lead nowhere, a dot leads nowhere, and a name leads down to it.
pub proof fn ways_back_lead_nowhere(parts: Seq<Seq<char>>, name: Seq<char>)
    requires
        is_name(name),
    ensures
        clean_steps(parts.push(name).push(".."@)) == clean_steps(parts),
        clean_steps(parts.push("."@)) == clean_steps(parts),
        clean_steps(parts.push(name)) == clean_steps(parts).push(name),
        forall|base: Seq<Seq<char>>| #[trigger]
            logical_join(base, parts.push(name).push(".."@)) == logical_join(base, parts),
        forall|base: Seq<Seq<char>>| #[trigger]
            logical_join(base, parts.push("."@)) == logical_join(base, parts),
        forall|base: Seq<Seq<char>>| #[trigger]
            logical_join(base, parts.push(name)) == logical_join(base, parts).push(name),
{
    reveal_strlit("..");
    reveal_strlit(".");
    assert(".."@ =~= crate::path::parent_part());
    assert("."@ =~= crate::path::current_part());
    let down = parts.push(name);
    let up = down.push(".."@);
    assert(down.drop_last() =~= parts && down.last() == name);
    assert(up.drop_last() =~= down && up.last() == ".."@);
    assert(parts.push("."@).drop_last() =~= parts);
    assert(name != crate::path::root_part()) by {
        if name == crate::path::root_part() {
            assert(name[0] == '/');
            assert(name.contains('/'));
        }
    }
    assert(clean_steps(down) == clean_steps(parts).push(name));
    assert(clean_steps(down).drop_last() =~= clean_steps(parts));
    assert forall|base: Seq<Seq<char>>| #[trigger] logical_join(base, down) == logical_join(
        base,
        parts,
    ).push(name) by {}
    assert forall|base: Seq<Seq<char>>| #[trigger] logical_join(base, up) == logical_join(
        base,
        parts,
    ) by {
        let below = logical_join(base, parts);
        assert(logical_join(base, down) == below.push(name));
        assert(below.push(name) != seq![crate::path::root_part()]) by {
            assert(below.push(name).last() == name);
            assert(seq![crate::path::root_part()].last() == crate::path::root_part());
        }
        assert(below.push(name).drop_last() =~= below);
    }
}

/// Cleaning a path once more changes nothing.
pub proof fn clean_paths_stay_clean(parts: Seq<Seq<char>>)
    requires
        are_components(parts),
    ensures
        clean_steps(clean_steps(parts)) == clean_steps(parts),
        clean_path(clean_path(parts)) == clean_path(parts),
{
    clean_steps_clean(parts);
    clean_steps_of_clean(clean_steps(parts));
    if clean_steps(parts).len() == 0 {
        let dot = seq![crate::path::current_part()];
        assert(dot.drop_last() =~= Seq::empty());
        assert(dot.last() == crate::path::current_part());
        reveal_with_fuel(clean_steps, 2);
        assert(clean_steps(dot) =~= Seq::empty());
    }
}

/// An absolute path stays absolute when it is cleaned, and leads up nowhere any more.
pub proof fn absolute_paths_stay_below_the_top(parts: Seq<Seq<char>>)
    requires
        are_components(parts),
        parts.len() > 0,
        parts[0] == "/"@,
    ensures
        clean_path(parts) == clean_steps(parts),
        clean_path(parts).len() > 0,
        clean_path(parts)[0] == "/"@,
        forall|i: int|
            0 <= i < clean_path(parts).len() ==> #[trigger] clean_path(parts)[i] != ".."@,
    decreases parts.len(),
{
    reveal_strlit("..");
    reveal_strlit("/");
    reveal_strlit(".");
    assert(".."@ =~= crate::path::parent_part());
    assert("/"@ =~= crate::path::root_part());
    assert("/"@[0] == '/' && ".."@[0] == '.');
    let rest = parts.drop_last();
    if rest.len() == 0 {
        assert(parts =~= Seq::<Seq<char>>::empty().push(parts[0]));
        assert(clean_steps(rest) =~= Seq::empty());
        assert(parts.last() == "/"@);
        assert(crate::path::current_part()[0] == '.');
        assert(clean_steps(parts) =~= seq!["/"@]);
    } else {
        assert forall|i: int| 0 <= i < rest.len() implies crate::path::is_component(rest, i) by {
            assert(crate::path::is_component(parts, i));
            assert(rest[i] == parts[i]);
        }
        absolute_paths_stay_below_the_top(rest);
        let before = clean_steps(rest);
        let part = parts.last();
        assert(crate::path::is_component(parts, parts.len() - 1));
        assert(clean_steps(parts) == crate::path::clean_step(before, part));
        clean_steps_clean(rest);
        if part == crate::path::parent_part() {
            assert(before.last() != crate::path::parent_part()) by {
                assert(before[before.len() - 1] != ".."@);
            }
            if before.len() == 1 {
                assert(before.last() == before[0]);
            }
        }
        let after = clean_steps(parts);
        assert(after.len() > 0 && after[0] == "/"@);
        assert forall|i: int| 0 <= i < after.len() implies #[trigger] after[i] != ".."@ by {
            if i < before.len() {
                assert(before[i] != ".."@);
            }
        }
    }
}

/// A relative path is named below another, and an absolute one stands for itself.
pub proof fn relative_paths_are_below(base: Seq<Seq<char>>, other: Seq<Seq<char>>, name: Seq<char>)
    requires
        base.len() > 0,
        is_name(name),
    ensures
        join_path(base, seq![name]) == base.push(name),
        join_path(base, seq!["."@]) == base,
        other.len() > 0 && other[0] == "/"@ ==> join_path(base, other) == other,
        other.len() > 0 && other[0] == "/"@ ==> relative_parts(other) == other.drop_first(),
        other.len() == 0 || other[0] != "/"@ ==> relative_parts(other) == other,
{
    reveal_strlit("/");
    reveal_strlit(".");
    assert("/"@ =~= crate::path::root_part());
    assert("."@ =~= crate::path::current_part());
    assert(name != crate::path::root_part()) by {
        if name == crate::path::root_part() {
            assert(name[0] == '/');
            assert(name.contains('/'));
        }
    }
    assert("."@[0] == '.' && "/"@[0] == '/');
    assert(base + seq![name] =~= base.push(name));
    assert(seq!["."@].drop_first() =~= Seq::<Seq<char>>::empty());
    assert(base + Seq::<Seq<char>>::empty() =~= base);
}

/// A text that can stand between separators.
pub open spec fn is_segment(text: Seq<char>) -> bool {
    text.len() > 0 && forall|i: int| 0 <= i < text.len() ==> #[trigger] text[i] != '/'
}

proof fn segments_stay_open(text: Seq<char>, segment: Seq<char>)
    requires
        forall|i: int| 0 <= i < segment.len() ==> #[trigger] segment[i] != '/',
    ensures
        scan_relative(text + segment) == (
            scan_relative(text).0,
            scan_relative(text).1 + segment,
        ),
    decreases segment.len(),
{
    if segment.len() == 0 {
        assert(text + segment =~= text);
        assert(scan_relative(text).1 + segment =~= scan_relative(text).1);
    } else {
        let rest = segment.drop_last();
        assert forall|i: int| 0 <= i < rest.len() implies #[trigger] rest[i] != '/' by {
            assert(rest[i] == segment[i]);
        }
        segments_stay_open(text, rest);
        assert((text + segment).drop_last() =~= text + rest);
        assert((text + segment).last() == segment.last());
        assert(segment[segment.len() - 1] == segment.last());
        assert((scan_relative(text).1 + rest).push(segment.last()) =~= scan_relative(text).1
            + segment);
    }
}

/// The components of segments joined by separators are those segments.
pub proof fn relative_paths_are_made_of_segments(parts: Seq<Seq<char>>)
    requires
        forall|i: int| 0 <= i < parts.len() ==> is_segment(#[trigger] parts[i]),
    ensures
        relative_components(join_texts(parts, "/"@)) == parts,
        parts.len() > 0 ==> scan_relative(join_texts(parts, "/"@)) == (
            parts.drop_last(),
            parts.last(),
        ),
    decreases parts.len(),
{
    reveal_strlit("/");
    let sep = "/"@;
    assert(sep =~= seq!['/']);
    if parts.len() == 0 {
        assert(join_texts(parts, sep) =~= Seq::empty());
    } else {
        let rest = parts.drop_last();
        let last = parts.last();
        assert(is_segment(parts[parts.len() - 1]));
        assert forall|i: int| 0 <= i < rest.len() implies is_segment(#[trigger] rest[i]) by {
            assert(rest[i] == parts[i]);
        }
        relative_paths_are_made_of_segments(rest);
        let text = join_texts(parts, sep);
        if rest.len() == 0 {
            assert(text =~= last);
            segments_stay_open(Seq::empty(), last);
            assert(Seq::<char>::empty() + last =~= last);
            assert(scan_relative(Seq::<char>::empty()) == (
                Seq::<Seq<char>>::empty(),
                Seq::<char>::empty(),
            ));
            assert(parts.drop_last() =~= Seq::empty());
        } else {
            let head = join_texts(rest, sep);
            assert(text =~= head + sep + last);
            let closed = head + sep;
            assert(closed.drop_last() =~= head);
            assert(closed.last() == '/');
            assert(is_segment(rest[rest.len() - 1]));
            assert(scan_relative(closed).0 =~= rest) by {
                assert(rest.drop_last().push(rest.last()) =~= rest);
            }
            segments_stay_open(closed, last);
            assert(Seq::<char>::empty() + last =~= last);
        }
        assert(parts.drop_last().push(parts.last()) =~= parts);
    }
}

/// A path comes before every path below it.
pub proof fn paths_come_before_what_is_below(parts: Seq<Seq<char>>, below: Seq<Seq<char>>)
    requires
        below.len() > 0,
    ensures
        parts_less(parts, parts + below),
    decreases parts.len(),
{
    if parts.len() == 0 {
        assert(parts + below =~= below);
    } else {
        paths_come_before_what_is_below(parts.drop_first(), below);
        assert((parts + below).drop_first() =~= parts.drop_first() + below);
    }
}

} // verus!
