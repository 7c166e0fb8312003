//! Rendering the enumerator macros as Rust source text.

use vstd::prelude::*;
use vstd::string::StrSliceExecFns;
use crate::collect::{TagGroup, TagGroupView, groups_view};

verus! {

/// An identifier as it stands inside a composed name: the `r#` of a raw
/// identifier is dropped.
pub open spec fn unraw(s: Seq<char>) -> Seq<char> {
    if s.len() >= 2 && s[0] == 'r' && s[1] == '#' {
        s.skip(2)
    } else {
        s
    }
}

/// The name of the enumerator macro of the tag `tag` on the struct `s`:
/// `enumerate_tags_<s>_<tag>`.
pub open spec fn macro_name(s: Seq<char>, tag: Seq<char>) -> Seq<char> {
    "enumerate_tags_"@ + unraw(s) + "_"@ + unraw(tag)
}

/// The invocation of the callback for one tagged field:
/// `$macro_callback!(<s>, <field>, <tag>); `.
pub open spec fn callback_line(s: Seq<char>, field: Seq<char>, tag: Seq<char>) -> Seq<char> {
    "$macro_callback!("@ + s + ", "@ + field + ", "@ + tag + "); "@
}

/// The invocations of the callback for the fields, in order.
pub open spec fn callback_lines(s: Seq<char>, fields: Seq<Seq<char>>, tag: Seq<char>) -> Seq<char>
    decreases fields.len(),
{
    if fields.len() == 0 {
        seq![]
    } else {
        callback_lines(s, fields.drop_last(), tag) + callback_line(s, fields.last(), tag)
    }
}

/// The enumerator macro of one group: it takes the name of a callback macro
/// and invokes it once per field of the group.
pub open spec fn render_group(s: Seq<char>, g: TagGroupView) -> Seq<char> {
    "macro_rules! "@ + macro_name(s, g.tag) + " { ($macro_callback:ident) => { "@ + callback_lines(s, g.fields, g.tag)
        + "} } "@
}

/// The enumerator macros of all groups, in order.
pub open spec fn render_groups(s: Seq<char>, gs: Seq<TagGroupView>) -> Seq<char>
    decreases gs.len(),
{
    if gs.len() == 0 {
        seq![]
    } else {
        render_groups(s, gs.drop_last()) + render_group(s, gs.last())
    }
}

/// Whether an identifier is written raw (`r#..`).
pub open spec fn is_raw(s: Seq<char>) -> bool {
    s.len() >= 2 && s[0] == 'r' && s[1] == '#'
}

/// On one struct, two different tags that are not raw identifiers have
/// enumerator macros of different names.
pub proof fn law_distinct_tags_distinct_macro_names(s: Seq<char>, t1: Seq<char>, t2: Seq<char>)
    requires
        t1 != t2,
        !is_raw(t1),
        !is_raw(t2),
    ensures
        macro_name(s, t1) != macro_name(s, t2),
{
    let p = "enumerate_tags_"@ + unraw(s) + "_"@;
    assert(macro_name(s, t1) == p + t1);
    assert(macro_name(s, t2) == p + t2);
    assert((p + t1).skip(p.len() as int) =~= t1);
    assert((p + t2).skip(p.len() as int) =~= t2);
}

/// One tag on two structs whose names differ (once `r#` is dropped) has
/// enumerator macros of different names.
pub proof fn law_macro_names_differ_across_structs(s1: Seq<char>, s2: Seq<char>, t: Seq<char>)
    requires
        unraw(s1) != unraw(s2),
    ensures
        macro_name(s1, t) != macro_name(s2, t),
{
    let p: Seq<char> = "enumerate_tags_"@;
    let tail = "_"@ + unraw(t);
    let n1 = macro_name(s1, t);
    let n2 = macro_name(s2, t);
    assert(n1 =~= p + (unraw(s1) + tail));
    assert(n2 =~= p + (unraw(s2) + tail));
    if n1 == n2 {
        assert(unraw(s1).len() == unraw(s2).len());
        assert(n1.subrange(p.len() as int, (p.len() + unraw(s1).len()) as int) =~= unraw(s1));
        assert(n2.subrange(p.len() as int, (p.len() + unraw(s2).len()) as int) =~= unraw(s2));
    }
}

/// The enumerator's name is spelled out from the struct's and the tag's
/// names exactly as written (with a raw identifier's `r#` dropped): the
/// prefix `enumerate_tags_` (15 characters), the struct's name, `_`, then
/// the tag; for names that are not raw, exactly `enumerate_tags_<s>_<t>`.
pub proof fn law_macro_name_spelled_out(s: Seq<char>, t: Seq<char>)
    ensures
        macro_name(s, t).len() == 16 + unraw(s).len() + unraw(t).len(),
        macro_name(s, t).subrange(0, 15) == seq!['e', 'n', 'u', 'm', 'e', 'r', 'a', 't', 'e', '_', 't', 'a', 'g', 's', '_'],
        macro_name(s, t).subrange(15, 15 + unraw(s).len() as int) == unraw(s),
        macro_name(s, t)[15 + unraw(s).len() as int] == '_',
        macro_name(s, t).subrange(16 + unraw(s).len() as int, macro_name(s, t).len() as int) == unraw(t),
        !is_raw(s) ==> unraw(s) == s,
        !is_raw(t) ==> unraw(t) == t,
        is_raw(s) ==> unraw(s) == s.skip(2),
{
    reveal_strlit("enumerate_tags_");
    reveal_strlit("_");
    let p: Seq<char> = "enumerate_tags_"@;
    let n = macro_name(s, t);
    assert(p =~= seq!['e', 'n', 'u', 'm', 'e', 'r', 'a', 't', 'e', '_', 't', 'a', 'g', 's', '_']);
    assert(n =~= p + unraw(s) + seq!['_'] + unraw(t));
    assert(n.subrange(0, 15) =~= p);
    assert(n.subrange(15, 15 + unraw(s).len() as int) =~= unraw(s));
    assert(n.subrange(16 + unraw(s).len() as int, n.len() as int) =~= unraw(t));
}

/// The callback invocations of two runs of fields are those of the first
/// run followed by those of the second: one invocation per field, in order,
/// none dropped or repeated.
pub proof fn law_callback_lines_concat(s: Seq<char>, a: Seq<Seq<char>>, b: Seq<Seq<char>>, t: Seq<char>)
    ensures
        callback_lines(s, a + b, t) == callback_lines(s, a, t) + callback_lines(s, b, t),
    decreases b.len(),
{
    if b.len() == 0 {
        assert(a + b =~= a);
        assert(callback_lines(s, a, t) + Seq::<char>::empty() =~= callback_lines(s, a, t));
    } else {
        assert((a + b).drop_last() =~= a + b.drop_last());
        assert((a + b).last() == b.last());
        law_callback_lines_concat(s, a, b.drop_last(), t);
        assert((callback_lines(s, a, t) + callback_lines(s, b.drop_last(), t)) + callback_line(s, b.last(), t)
            =~= callback_lines(s, a, t) + (callback_lines(s, b.drop_last(), t) + callback_line(s, b.last(), t)));
    }
}

/// For one field `f`, the enumerator invokes the callback once, as
/// `$macro_callback!(<s>, <f>, <t>); `.
pub proof fn law_callback_line_for_one_field(s: Seq<char>, f: Seq<char>, t: Seq<char>)
    ensures
        callback_lines(s, seq![f], t) == "$macro_callback!("@ + s + ", "@ + f + ", "@ + t + "); "@,
{
    let one: Seq<Seq<char>> = seq![f];
    assert(one.drop_last() =~= Seq::<Seq<char>>::empty());
    assert(one.last() == f);
    assert(callback_lines(s, one.drop_last(), t) == Seq::<char>::empty());
    assert(Seq::<char>::empty() + callback_line(s, f, t) =~= callback_line(s, f, t));
}

/// Each listed field has its own invocation: the invocations of the fields
/// are the first fields' invocations, then `$macro_callback!(<s>, <f_k>, <t>); `
/// for the `k`-th field, then the rest's.
pub proof fn law_callback_lines_hold_each_field(s: Seq<char>, fs: Seq<Seq<char>>, t: Seq<char>, k: int)
    requires
        0 <= k < fs.len(),
    ensures
        callback_lines(s, fs, t) == callback_lines(s, fs.take(k), t)
            + ("$macro_callback!("@ + s + ", "@ + fs[k] + ", "@ + t + "); "@)
            + callback_lines(s, fs.skip(k + 1), t),
{
    assert(fs =~= fs.take(k) + (seq![fs[k]] + fs.skip(k + 1)));
    law_callback_lines_concat(s, fs.take(k), seq![fs[k]] + fs.skip(k + 1), t);
    law_callback_lines_concat(s, seq![fs[k]], fs.skip(k + 1), t);
    law_callback_line_for_one_field(s, fs[k], t);
}

/// The enumerators of groups, one run after another: those of the first
/// run followed by those of the second.
pub proof fn law_render_groups_concat(s: Seq<char>, a: Seq<TagGroupView>, b: Seq<TagGroupView>)
    ensures
        render_groups(s, a + b) == render_groups(s, a) + render_groups(s, b),
    decreases b.len(),
{
    if b.len() == 0 {
        assert(a + b =~= a);
        assert(render_groups(s, a) + Seq::<char>::empty() =~= render_groups(s, a));
    } else {
        assert((a + b).drop_last() =~= a + b.drop_last());
        assert((a + b).last() == b.last());
        law_render_groups_concat(s, a, b.drop_last());
        assert((render_groups(s, a) + render_groups(s, b.drop_last())) + render_group(s, b.last())
            =~= render_groups(s, a) + (render_groups(s, b.drop_last()) + render_group(s, b.last())));
    }
}

/// The enumerator of one group on a struct and a tag that are not raw
/// identifiers, spelled out: `macro_rules! enumerate_tags_<s>_<t> {
/// ($macro_callback:ident) => { <one invocation per field> } } `, the
/// struct's and the tag's names exactly as written.
pub proof fn law_enumerator_spelled_out(s: Seq<char>, g: TagGroupView)
    requires
        !is_raw(s),
        !is_raw(g.tag),
    ensures
        render_group(s, g) == "macro_rules! enumerate_tags_"@ + s + "_"@ + g.tag
            + " { ($macro_callback:ident) => { "@ + callback_lines(s, g.fields, g.tag) + "} } "@,
{
    reveal_strlit("macro_rules! enumerate_tags_");
    reveal_strlit("macro_rules! ");
    reveal_strlit("enumerate_tags_");
    assert("macro_rules! enumerate_tags_"@ =~= "macro_rules! "@ + "enumerate_tags_"@);
    assert(render_group(s, g) =~= "macro_rules! enumerate_tags_"@ + s + "_"@ + g.tag
        + " { ($macro_callback:ident) => { "@ + callback_lines(s, g.fields, g.tag) + "} } "@);
}

/// Drops the `r#` of a raw identifier.
pub fn unraw_ident(s: &String) -> (r: String)
    ensures
        r@ == unraw(s@),
{
    let t = s.as_str();
    let n: usize = t.unicode_len();
    if n >= 2 && t.get_char(0) == 'r' && t.get_char(1) == '#' {
        t.substring_char(2, n).to_owned()
    } else {
        s.clone()
    }
}

/// The name of the enumerator macro of `tag` on the struct `struct_name`.
pub fn tag_macro_name(struct_name: &String, tag: &String) -> (r: String)
    ensures
        r@ == macro_name(struct_name@, tag@),
{
    let mut r = "enumerate_tags_".to_owned();
    let s = unraw_ident(struct_name);
    r.append(s.as_str());
    r.append("_");
    let t = unraw_ident(tag);
    r.append(t.as_str());
    r
}

/// The enumerator macro of one group, as source text.
pub fn render_tag_macro(struct_name: &String, group: &TagGroup) -> (r: String)
    ensures
        r@ == render_group(struct_name@, group@),
{
    let mut r = "macro_rules! ".to_owned();
    let name = tag_macro_name(struct_name, &group.tag);
    r.append(name.as_str());
    r.append(" { ($macro_callback:ident) => { ");
    let ghost head = r@;
    let ghost fs = group@.fields;
    let n: usize = group.fields.len();
    for i in 0..n
        invariant
            n == group.fields.len(),
            fs == group@.fields,
            r@ == head + callback_lines(struct_name@, fs.take(i as int), group.tag@),
    {
        let ghost before = r@;
        r.append("$macro_callback!(");
        r.append(struct_name.as_str());
        r.append(", ");
        r.append(group.fields[i].as_str());
        r.append(", ");
        r.append(group.tag.as_str());
        r.append("); ");
        proof {
            assert(fs.take(i + 1).drop_last() =~= fs.take(i as int));
            assert(fs.take(i + 1).last() == group.fields@[i as int]@);
            assert(r@ =~= before + callback_line(struct_name@, group.fields@[i as int]@, group.tag@));
            assert(r@ =~= head + callback_lines(struct_name@, fs.take(i + 1), group.tag@));
        }
    }
    r.append("} } ");
    proof {
        assert(fs.take(n as int) =~= fs);
        assert(r@ =~= render_group(struct_name@, group@));
    }
    r
}

/// The enumerator macros of all groups, as source text.
pub fn render_tag_macros(struct_name: &String, groups: &Vec<TagGroup>) -> (r: String)
    ensures
        r@ == render_groups(struct_name@, groups_view(groups@)),
{
    let mut r = String::new();
    let ghost gv = groups_view(groups@);
    let n: usize = groups.len();
    for i in 0..n
        invariant
            n == groups.len(),
            gv == groups_view(groups@),
            r@ == render_groups(struct_name@, gv.take(i as int)),
    {
        let m = render_tag_macro(struct_name, &groups[i]);
        r.append(m.as_str());
        proof {
            assert(gv.take(i + 1).drop_last() =~= gv.take(i as int));
            assert(gv.take(i + 1).last() == groups@[i as int]@);
        }
    }
    proof {
        assert(gv.take(n as int) =~= gv);
    }
    r
}

} // verus!
