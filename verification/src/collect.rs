//! Grouping the named fields of a struct by the tags they carry.

use vstd::prelude::*;
use crate::error::{EnumeratorError, ErrorView};
use crate::model::{AttributeModel, AttributeView, FieldModel, FieldView, fields_view, ident_view};

verus! {

/// The name of the attribute that tags a field: `#[tag(..)]`.
pub open spec fn tag_attribute_name() -> Seq<char> {
    "tag"@
}

/// What one attribute of the field `field` contributes: `None` when it is
/// not a `#[tag ..]` attribute; otherwise the tag it names (the last of its
/// arguments), or the refusal it causes.
pub open spec fn attribute_tag(field: Seq<char>, a: AttributeView) -> Option<Result<Seq<char>, ErrorView>> {
    if a.path_ident != Some(tag_attribute_name()) {
        None
    } else {
        match a.nested {
            None => Some(Err(ErrorView::MalformedTag(field))),
            Some(paths) => if paths.len() == 0 {
                Some(Err(ErrorView::EmptyTag))
            } else {
                match paths.last() {
                    None => Some(Err(ErrorView::TagNotIdent(field))),
                    Some(t) => Some(Ok(t)),
                }
            },
        }
    }
}

/// The tags of the field `field`, one per `#[tag ..]` attribute in order,
/// or the refusal caused by the first malformed one.
pub open spec fn field_tags(field: Seq<char>, attrs: Seq<AttributeView>) -> Result<Seq<Seq<char>>, ErrorView>
    decreases attrs.len(),
{
    if attrs.len() == 0 {
        Ok(seq![])
    } else {
        match field_tags(field, attrs.drop_last()) {
            Err(e) => Err(e),
            Ok(ts) => match attribute_tag(field, attrs.last()) {
                None => Ok(ts),
                Some(Err(e)) => Err(e),
                Some(Ok(t)) => Ok(ts.push(t)),
            },
        }
    }
}

/// The pairs `(field, tag)` of a struct's fields, in field order and, within
/// a field, in attribute order; or the first refusal.
pub open spec fn tagged_fields(fields: Seq<FieldView>) -> Result<Seq<(Seq<char>, Seq<char>)>, ErrorView>
    decreases fields.len(),
{
    if fields.len() == 0 {
        Ok(seq![])
    } else {
        match tagged_fields(fields.drop_last()) {
            Err(e) => Err(e),
            Ok(ps) => match fields.last().ident {
                None => Err(ErrorView::FieldsNotNamed),
                Some(name) => match field_tags(name, fields.last().attrs) {
                    Err(e) => Err(e),
                    Ok(ts) => Ok(ps + tag_pairs(name, ts)),
                },
            },
        }
    }
}

/// The pairs `(field, t)` for the tags `ts` of one field.
pub open spec fn tag_pairs(field: Seq<char>, ts: Seq<Seq<char>>) -> Seq<(Seq<char>, Seq<char>)> {
    ts.map_values(|t: Seq<char>| (field, t))
}

/// The distinct tags of the pairs, in the order of their first occurrence.
pub open spec fn tags_in_order(ps: Seq<(Seq<char>, Seq<char>)>) -> Seq<Seq<char>>
    decreases ps.len(),
{
    if ps.len() == 0 {
        seq![]
    } else {
        let prev = tags_in_order(ps.drop_last());
        if prev.contains(ps.last().1) {
            prev
        } else {
            prev.push(ps.last().1)
        }
    }
}

/// The fields that carry the tag `t`, in the order of the pairs.
pub open spec fn fields_with_tag(ps: Seq<(Seq<char>, Seq<char>)>, t: Seq<char>) -> Seq<Seq<char>>
    decreases ps.len(),
{
    if ps.len() == 0 {
        seq![]
    } else {
        let prev = fields_with_tag(ps.drop_last(), t);
        if ps.last().1 == t {
            prev.push(ps.last().0)
        } else {
            prev
        }
    }
}

/// A tag and the fields that carry it, in field order.
pub struct TagGroup {
    pub tag: String,
    pub fields: Vec<String>,
}

pub struct TagGroupView {
    pub tag: Seq<char>,
    pub fields: Seq<Seq<char>>,
}

impl View for TagGroup {
    type V = TagGroupView;

    open spec fn view(&self) -> TagGroupView {
        TagGroupView { tag: self.tag@, fields: self.fields@.map_values(|f: String| f@) }
    }
}

/// Deep view of a sequence of groups.
pub open spec fn groups_view(gs: Seq<TagGroup>) -> Seq<TagGroupView> {
    gs.map_values(|g: TagGroup| g@)
}

/// One group per distinct tag, in the order of first occurrence.
pub open spec fn tag_groups(ps: Seq<(Seq<char>, Seq<char>)>) -> Seq<TagGroupView> {
    tags_in_order(ps).map_values(|t: Seq<char>| TagGroupView { tag: t, fields: fields_with_tag(ps, t) })
}

/// The grouping of a struct's fields by tag, or the first refusal.
pub open spec fn spec_collect(fields: Seq<FieldView>) -> Result<Seq<TagGroupView>, ErrorView> {
    match tagged_fields(fields) {
        Ok(ps) => Ok(tag_groups(ps)),
        Err(e) => Err(e),
    }
}

/// A tag occurs among the first-occurrence tags exactly when some pair carries it.
pub proof fn lemma_tags_in_order_contains(ps: Seq<(Seq<char>, Seq<char>)>, t: Seq<char>)
    ensures
        tags_in_order(ps).contains(t) <==> exists|i: int| 0 <= i < ps.len() && #[trigger] ps[i].1 == t,
    decreases ps.len(),
{
    if ps.len() > 0 {
        let prev = ps.drop_last();
        lemma_tags_in_order_contains(prev, t);
        if tags_in_order(ps).contains(t) {
            if tags_in_order(prev).contains(t) {
                let i: int = choose|i: int| 0 <= i < prev.len() && #[trigger] prev[i].1 == t;
                assert(ps[i] == prev[i]);
            } else {
                let k: int = choose|k: int| 0 <= k < tags_in_order(ps).len() && tags_in_order(ps)[k] == t;
                assert(tags_in_order(ps) == tags_in_order(prev).push(ps.last().1));
                assert(k == tags_in_order(prev).len());
                assert(ps[ps.len() - 1].1 == t);
            }
        } else {
            assert forall|i: int| 0 <= i < ps.len() implies #[trigger] ps[i].1 != t by {
                if i < ps.len() - 1 {
                    assert(prev[i] == ps[i]);
                    if ps[i].1 == t {
                        assert(tags_in_order(prev).contains(t));
                        let k: int = choose|k: int| 0 <= k < tags_in_order(prev).len() && tags_in_order(prev)[k] == t;
                        if tags_in_order(prev).contains(ps.last().1) {
                        } else {
                            assert(tags_in_order(ps)[k] == t);
                        }
                    }
                } else {
                    assert(tags_in_order(prev).contains(ps.last().1) || tags_in_order(ps).last() == ps.last().1);
                    if tags_in_order(prev).contains(ps.last().1) {
                    } else {
                        assert(tags_in_order(ps)[tags_in_order(ps).len() - 1] == ps.last().1);
                    }
                }
            }
        }
    }
}

/// The first-occurrence tags are pairwise distinct.
pub proof fn lemma_tags_in_order_distinct(ps: Seq<(Seq<char>, Seq<char>)>)
    ensures
        tags_in_order(ps).no_duplicates(),
    decreases ps.len(),
{
    if ps.len() > 0 {
        lemma_tags_in_order_distinct(ps.drop_last());
    }
}

/// A tag that no pair carries has no fields.
pub proof fn lemma_fields_with_absent_tag(ps: Seq<(Seq<char>, Seq<char>)>, t: Seq<char>)
    requires
        !tags_in_order(ps).contains(t),
    ensures
        fields_with_tag(ps, t) == Seq::<Seq<char>>::empty(),
    decreases ps.len(),
{
    if ps.len() > 0 {
        let prev = ps.drop_last();
        if tags_in_order(prev).contains(t) {
            lemma_tags_in_order_contains(prev, t);
            lemma_tags_in_order_contains(ps, t);
            let i: int = choose|i: int| 0 <= i < prev.len() && #[trigger] prev[i].1 == t;
            assert(ps[i] == prev[i]);
        }
        if ps.last().1 == t {
            assert(tags_in_order(prev).contains(t) || tags_in_order(ps) == tags_in_order(prev).push(t));
            if !tags_in_order(prev).contains(t) {
                assert(tags_in_order(ps)[tags_in_order(ps).len() - 1] == t);
            }
        }
        lemma_fields_with_absent_tag(prev, t);
    }
}

/// Adding one pair to the groups: the group of its tag, if there is one,
/// gains the field at its end; otherwise a new group with just that field
/// is added at the end.
pub proof fn lemma_tag_groups_push(ps: Seq<(Seq<char>, Seq<char>)>, f: Seq<char>, t: Seq<char>)
    ensures
        ({
            let gs = tag_groups(ps);
            let next = tag_groups(ps.push((f, t)));
            if tags_in_order(ps).contains(t) {
                exists|k: int| 0 <= k < gs.len() && gs[k].tag == t
                    && next == gs.update(k, TagGroupView { tag: t, fields: gs[k].fields.push(f) })
            } else {
                next == gs.push(TagGroupView { tag: t, fields: seq![f] })
            }
        }),
{
    let qs = ps.push((f, t));
    assert(qs.drop_last() =~= ps);
    let tags = tags_in_order(ps);
    lemma_tags_in_order_distinct(ps);
    assert forall|u: Seq<char>| #[trigger] fields_with_tag(qs, u)
        == (if u == t { fields_with_tag(ps, u).push(f) } else { fields_with_tag(ps, u) }) by {}
    let gs = tag_groups(ps);
    let next = tag_groups(qs);
    if tags.contains(t) {
        let k: int = choose|k: int| 0 <= k < tags.len() && tags[k] == t;
        assert(tags_in_order(qs) == tags);
        let upd = gs.update(k, TagGroupView { tag: t, fields: gs[k].fields.push(f) });
        assert forall|j: int| 0 <= j < next.len() implies #[trigger] next[j] == upd[j] by {
            if j != k {
                assert(tags[j] != tags[k]);
            }
        }
        assert(next =~= upd);
    } else {
        lemma_fields_with_absent_tag(ps, t);
        assert(tags_in_order(qs) == tags.push(t));
        let pushed = gs.push(TagGroupView { tag: t, fields: seq![f] });
        assert forall|j: int| 0 <= j < next.len() implies #[trigger] next[j] == pushed[j] by {
            if j < tags.len() {
                assert(tags[j] != t);
            } else {
                assert(fields_with_tag(ps, t).push(f) =~= seq![f]);
            }
        }
        assert(next =~= pushed);
    }
}

/// The contribution of one attribute of the named field `field`.
fn read_attribute_tag(field: &String, a: &AttributeModel) -> (r: Option<Result<String, EnumeratorError>>)
    ensures
        match r {
            None => attribute_tag(field@, a@) is None,
            Some(Ok(t)) => attribute_tag(field@, a@) == Some(Ok::<Seq<char>, ErrorView>(t@)),
            Some(Err(e)) => attribute_tag(field@, a@) == Some(Err::<Seq<char>, ErrorView>(e@)),
        },
{
    let is_tag = match &a.path_ident {
        Some(p) => {
            let tag = "tag".to_owned();
            *p == tag
        },
        None => false,
    };
    if !is_tag {
        return None;
    }
    match &a.nested {
        None => Some(Err(EnumeratorError::MalformedTag(field.clone()))),
        Some(paths) => {
            if paths.len() == 0 {
                Some(Err(EnumeratorError::EmptyTag))
            } else {
                let last = &paths[paths.len() - 1];
                proof {
                    assert(a@.nested->Some_0.last() == ident_view(*last));
                }
                match last {
                    None => Some(Err(EnumeratorError::TagNotIdent(field.clone()))),
                    Some(t) => Some(Ok(t.clone())),
                }
            }
        },
    }
}

/// Adds the pair `(field, tag)` to the groups of the pairs `ps`.
fn add_to_groups(groups: &mut Vec<TagGroup>, field: &String, tag: String, Ghost(ps): Ghost<Seq<(Seq<char>, Seq<char>)>>)
    requires
        groups_view(old(groups)@) == tag_groups(ps),
    ensures
        groups_view(final(groups)@) == tag_groups(ps.push((field@, tag@))),
{
    let ghost gs = tag_groups(ps);
    let n: usize = groups.len();
    let mut k: usize = 0;
    while k < n
        invariant
            n == groups.len(),
            k <= n,
            groups_view(groups@) == gs,
            gs == tag_groups(ps),
            forall|j: int| 0 <= j < k ==> gs[j].tag != tag@,
        decreases n - k,
    {
        if groups[k].tag == tag {
            proof {
                assert(groups_view(groups@)[k as int] == groups@[k as int]@);
                assert(gs[k as int].tag == tag@);
                assert(gs.len() == tags_in_order(ps).len());
                assert(gs[k as int].tag == tags_in_order(ps)[k as int]);
                lemma_tags_in_order_distinct(ps);
                if !tags_in_order(ps).contains(tag@) {
                    assert(tags_in_order(ps)[k as int] == tag@);
                }
            }
            let ghost old_groups = groups@;
            groups[k].fields.push(field.clone());
            proof {
                lemma_tag_groups_push(ps, field@, tag@);
                let upd = gs.update(k as int, TagGroupView { tag: tag@, fields: gs[k as int].fields.push(field@) });
                assert(groups[k as int].fields@.map_values(|f: String| f@)
                    =~= old_groups[k as int].fields@.map_values(|f: String| f@).push(field@));
                assert(groups_view(groups@) =~= upd);
                let kk: int = choose|kk: int| 0 <= kk < gs.len() && gs[kk].tag == tag@
                    && tag_groups(ps.push((field@, tag@))) == gs.update(kk, TagGroupView { tag: tag@, fields: gs[kk].fields.push(field@) });
                assert(gs[kk].tag == tags_in_order(ps)[kk]);
                assert(tags_in_order(ps)[kk] == tags_in_order(ps)[k as int]);
            }
            return;
        }
        k = k + 1;
    }
    proof {
        lemma_tag_groups_push(ps, field@, tag@);
        if tags_in_order(ps).contains(tag@) {
            let j: int = choose|j: int| 0 <= j < tags_in_order(ps).len() && tags_in_order(ps)[j] == tag@;
            assert(gs[j].tag == tag@);
        }
    }
    let mut fields: Vec<String> = Vec::new();
    fields.push(field.clone());
    let ghost old_groups = groups@;
    groups.push(TagGroup { tag, fields });
    proof {
        assert(fields@.map_values(|f: String| f@) =~= seq![field@]);
        assert(groups_view(groups@) =~= groups_view(old_groups).push(TagGroupView { tag: tag@, fields: seq![field@] }));
    }
}

/// Once the tags of a prefix of the attributes are refused, so are the tags
/// of all of them, for the same reason.
proof fn lemma_field_tags_refusal_persists(field: Seq<char>, attrs: Seq<AttributeView>, j: int)
    requires
        0 <= j <= attrs.len(),
        field_tags(field, attrs.take(j)) is Err,
    ensures
        field_tags(field, attrs) == field_tags(field, attrs.take(j)),
    decreases attrs.len() - j,
{
    if j == attrs.len() {
        assert(attrs.take(j) =~= attrs);
    } else {
        assert(attrs.take(j + 1).drop_last() =~= attrs.take(j));
        lemma_field_tags_refusal_persists(field, attrs, j + 1);
    }
}

/// Once a prefix of the fields is refused, so is the whole, for the same reason.
proof fn lemma_tagged_fields_refusal_persists(fields: Seq<FieldView>, i: int)
    requires
        0 <= i <= fields.len(),
        tagged_fields(fields.take(i)) is Err,
    ensures
        tagged_fields(fields) == tagged_fields(fields.take(i)),
    decreases fields.len() - i,
{
    if i == fields.len() {
        assert(fields.take(i) =~= fields);
    } else {
        assert(fields.take(i + 1).drop_last() =~= fields.take(i));
        lemma_tagged_fields_refusal_persists(fields, i + 1);
    }
}

/// Groups the named fields by the tags of their `#[tag(..)]` attributes:
/// one group per distinct tag, in the order in which the tags first occur,
/// each listing the fields that carry its tag in field order (a field
/// tagged twice with the same tag is listed twice). The first field without
/// a name, or the first malformed `#[tag ..]` attribute, is refused.
pub fn collect_injectable_by_tag(fields: &Vec<FieldModel>) -> (r: Result<Vec<TagGroup>, EnumeratorError>)
    ensures
        match r {
            Ok(gs) => spec_collect(fields_view(fields@)) == Ok::<Seq<TagGroupView>, ErrorView>(groups_view(gs@)),
            Err(e) => spec_collect(fields_view(fields@)) == Err::<Seq<TagGroupView>, ErrorView>(e@),
        },
{
    let ghost fv = fields_view(fields@);
    let mut groups: Vec<TagGroup> = Vec::new();
    let ghost mut ps: Seq<(Seq<char>, Seq<char>)> = seq![];
    proof {
        assert(fv.take(0) =~= Seq::<FieldView>::empty());
        assert(groups_view(groups@) =~= tag_groups(ps));
    }
    let n: usize = fields.len();
    for i in 0..n
        invariant
            n == fields.len(),
            fv == fields_view(fields@),
            tagged_fields(fv.take(i as int)) == Ok::<Seq<(Seq<char>, Seq<char>)>, ErrorView>(ps),
            groups_view(groups@) == tag_groups(ps),
    {
        let field = &fields[i];
        proof {
            assert(fv.take(i + 1).drop_last() =~= fv.take(i as int));
            assert(fv.take(i + 1).last() == field@);
        }
        let name = match &field.ident {
            None => {
                proof {
                    lemma_tagged_fields_refusal_persists(fv, i + 1);
                }
                return Err(EnumeratorError::FieldsNotNamed);
            },
            Some(name) => name,
        };
        let ghost av = field@.attrs;
        let ghost mut ts: Seq<Seq<char>> = seq![];
        proof {
            assert(av.take(0) =~= Seq::<AttributeView>::empty());
            assert(ps + tag_pairs(name@, ts) =~= ps);
        }
        let m: usize = field.attrs.len();
        for j in 0..m
            invariant
                m == field.attrs.len(),
                av == field@.attrs,
                i < n,
                n == fields.len(),
                fv == fields_view(fields@),
                field@ == fv[i as int],
                field@.ident == Some(name@),
                tagged_fields(fv.take(i as int)) == Ok::<Seq<(Seq<char>, Seq<char>)>, ErrorView>(ps),
                field_tags(name@, av.take(j as int)) == Ok::<Seq<Seq<char>>, ErrorView>(ts),
                groups_view(groups@) == tag_groups(ps + tag_pairs(name@, ts)),
        {
            proof {
                assert(av.take(j + 1).drop_last() =~= av.take(j as int));
                assert(av.take(j + 1).last() == field.attrs@[j as int]@);
            }
            match read_attribute_tag(name, &field.attrs[j]) {
                None => {},
                Some(Err(e)) => {
                    proof {
                        lemma_field_tags_refusal_persists(name@, av, j + 1);
                        assert(fv.take(i + 1).drop_last() =~= fv.take(i as int));
                        assert(fv.take(i + 1).last() == field@);
                        lemma_tagged_fields_refusal_persists(fv, i + 1);
                    }
                    return Err(e);
                },
                Some(Ok(t)) => {
                    let ghost tv = t@;
                    add_to_groups(&mut groups, name, t, Ghost(ps + tag_pairs(name@, ts)));
                    proof {
                        assert(tag_pairs(name@, ts.push(tv)) =~= tag_pairs(name@, ts).push((name@, tv)));
                        assert(ps + tag_pairs(name@, ts.push(tv)) =~= (ps + tag_pairs(name@, ts)).push((name@, tv)));
                        ts = ts.push(tv);
                    }
                },
            }
        }
        proof {
            assert(av.take(m as int) =~= av);
            ps = ps + tag_pairs(name@, ts);
        }
    }
    proof {
        assert(fv.take(n as int) =~= fv);
    }
    Ok(groups)
}

/// The tags of a field are exactly the tags that its `#[tag(..)]` attributes name.
proof fn lemma_field_tags_contains(field: Seq<char>, attrs: Seq<AttributeView>, ts: Seq<Seq<char>>, t: Seq<char>)
    requires
        field_tags(field, attrs) == Ok::<Seq<Seq<char>>, ErrorView>(ts),
    ensures
        ts.contains(t) <==> exists|j: int| 0 <= j < attrs.len()
            && #[trigger] attribute_tag(field, attrs[j]) == Some(Ok::<Seq<char>, ErrorView>(t)),
    decreases attrs.len(),
{
    if attrs.len() > 0 {
        let prev = attrs.drop_last();
        let ts0 = field_tags(field, prev)->Ok_0;
        lemma_field_tags_contains(field, prev, ts0, t);
        if ts.contains(t) {
            let k: int = choose|k: int| 0 <= k < ts.len() && ts[k] == t;
            if k < ts0.len() {
                assert(ts0[k] == t);
                let j: int = choose|j: int| 0 <= j < prev.len()
                    && #[trigger] attribute_tag(field, prev[j]) == Some(Ok::<Seq<char>, ErrorView>(t));
                assert(attrs[j] == prev[j]);
            } else {
                assert(attribute_tag(field, attrs[attrs.len() - 1]) == Some(Ok::<Seq<char>, ErrorView>(t)));
            }
        } else {
            assert forall|j: int| 0 <= j < attrs.len() implies
                #[trigger] attribute_tag(field, attrs[j]) != Some(Ok::<Seq<char>, ErrorView>(t)) by {
                if j < prev.len() {
                    assert(attrs[j] == prev[j]);
                    if attribute_tag(field, prev[j]) == Some(Ok::<Seq<char>, ErrorView>(t)) {
                        let k: int = choose|k: int| 0 <= k < ts0.len() && ts0[k] == t;
                        assert(ts[k] == t);
                    }
                } else {
                    if attribute_tag(field, attrs.last()) == Some(Ok::<Seq<char>, ErrorView>(t)) {
                        assert(ts[ts.len() - 1] == t);
                    }
                }
            }
        }
    }
}

/// Whether the field `i` is named `f` and has a `#[tag(t)]` attribute.
pub open spec fn field_has_tag(fields: Seq<FieldView>, i: int, f: Seq<char>, t: Seq<char>) -> bool {
    &&& 0 <= i < fields.len()
    &&& fields[i].ident == Some(f)
    &&& exists|j: int| 0 <= j < fields[i].attrs.len()
        && #[trigger] attribute_tag(f, fields[i].attrs[j]) == Some(Ok::<Seq<char>, ErrorView>(t))
}

/// The pairs are exactly the (field, tag) combinations that the fields carry,
/// and every field is named.
proof fn lemma_tagged_fields_contains(fields: Seq<FieldView>, ps: Seq<(Seq<char>, Seq<char>)>, f: Seq<char>, t: Seq<char>)
    requires
        tagged_fields(fields) == Ok::<Seq<(Seq<char>, Seq<char>)>, ErrorView>(ps),
    ensures
        ps.contains((f, t)) <==> exists|i: int| #[trigger] field_has_tag(fields, i, f, t),
        forall|i: int| 0 <= i < fields.len() ==> (#[trigger] fields[i]).ident is Some,
    decreases fields.len(),
{
    if fields.len() > 0 {
        let prev = fields.drop_last();
        let ps0 = tagged_fields(prev)->Ok_0;
        lemma_tagged_fields_contains(prev, ps0, f, t);
        let last = fields.last();
        let name = last.ident->Some_0;
        let ts = field_tags(name, last.attrs)->Ok_0;
        let tp = tag_pairs(name, ts);
        assert(ps == ps0 + tp);
        assert forall|i: int| 0 <= i < fields.len() implies (#[trigger] fields[i]).ident is Some by {
            if i < prev.len() {
                assert(fields[i] == prev[i]);
            }
        }
        assert forall|i: int| field_has_tag(prev, i, f, t) implies #[trigger] field_has_tag(fields, i, f, t) by {
            assert(fields[i] == prev[i]);
        }
        if ps.contains((f, t)) {
            let k: int = choose|k: int| 0 <= k < ps.len() && ps[k] == (f, t);
            if k < ps0.len() {
                assert(ps0[k] == (f, t));
                let i: int = choose|i: int| #[trigger] field_has_tag(prev, i, f, t);
                assert(fields[i] == prev[i]);
                assert(field_has_tag(fields, i, f, t));
            } else {
                assert(tp[k - ps0.len()] == (f, t));
                assert(tp[k - ps0.len()] == (name, ts[k - ps0.len()]));
                assert(f == name);
                assert(ts[k - ps0.len()] == t);
                assert(ts.contains(t));
                lemma_field_tags_contains(name, last.attrs, ts, t);
                assert(fields[fields.len() - 1] == last);
                assert(field_has_tag(fields, fields.len() - 1, f, t));
            }
        } else {
            assert forall|i: int| !#[trigger] field_has_tag(fields, i, f, t) by {
                if field_has_tag(fields, i, f, t) {
                    if i < prev.len() {
                        assert(fields[i] == prev[i]);
                        assert(field_has_tag(prev, i, f, t));
                        let k: int = choose|k: int| 0 <= k < ps0.len() && ps0[k] == (f, t);
                        assert(ps[k] == (f, t));
                    } else {
                        assert(f == name);
                        lemma_field_tags_contains(name, last.attrs, ts, t);
                        let k: int = choose|k: int| 0 <= k < ts.len() && ts[k] == t;
                        assert(tp[k] == (name, t));
                        assert(ps[ps0.len() + k] == (f, t));
                    }
                }
            }
        }
    }
}

/// A field is listed in a tag's group exactly when some pair gives it that tag.
proof fn lemma_fields_with_tag_contains(ps: Seq<(Seq<char>, Seq<char>)>, t: Seq<char>, f: Seq<char>)
    ensures
        fields_with_tag(ps, t).contains(f) <==> ps.contains((f, t)),
        fields_with_tag(ps, t).len() > 0 <==> tags_in_order(ps).contains(t),
    decreases ps.len(),
{
    lemma_tags_in_order_contains(ps, t);
    if ps.len() > 0 {
        let prev = ps.drop_last();
        lemma_fields_with_tag_contains(prev, t, f);
        lemma_tags_in_order_contains(prev, t);
        let fw = fields_with_tag(ps, t);
        let fw0 = fields_with_tag(prev, t);
        if fw.contains(f) {
            let k: int = choose|k: int| 0 <= k < fw.len() && fw[k] == f;
            if k < fw0.len() {
                assert(fw0[k] == f);
                let m: int = choose|m: int| 0 <= m < prev.len() && prev[m] == (f, t);
                assert(ps[m] == (f, t));
            } else {
                assert(ps[ps.len() - 1] == (f, t));
            }
        }
        if ps.contains((f, t)) {
            let m: int = choose|m: int| 0 <= m < ps.len() && ps[m] == (f, t);
            if m < prev.len() {
                assert(prev[m] == (f, t));
                let k: int = choose|k: int| 0 <= k < fw0.len() && fw0[k] == f;
                assert(fw[k] == f);
            } else {
                assert(fw[fw.len() - 1] == f);
            }
        }
        if tags_in_order(ps).contains(t) {
            let m: int = choose|m: int| 0 <= m < ps.len() && #[trigger] ps[m].1 == t;
            if m < prev.len() {
                assert(prev[m].1 == t);
            }
        }
        if fw.len() > 0 && fw0.len() == 0 {
            assert(ps[ps.len() - 1].1 == t);
        }
        if fw0.len() > 0 {
            let m: int = choose|m: int| 0 <= m < prev.len() && #[trigger] prev[m].1 == t;
            assert(ps[m].1 == t);
        }
    }
}

/// The enumerator of a tag lists a field exactly when that field carries a
/// `#[tag(..)]` attribute naming the tag; fields without such an attribute
/// appear in no enumerator.
pub proof fn law_enumerated_exactly_when_tagged(fields: Seq<FieldView>, gs: Seq<TagGroupView>, k: int, f: Seq<char>)
    requires
        spec_collect(fields) == Ok::<Seq<TagGroupView>, ErrorView>(gs),
        0 <= k < gs.len(),
    ensures
        gs[k].fields.contains(f) <==> exists|i: int| #[trigger] field_has_tag(fields, i, f, gs[k].tag),
{
    let ps = tagged_fields(fields)->Ok_0;
    let t = tags_in_order(ps)[k];
    assert(gs[k].tag == t && gs[k].fields == fields_with_tag(ps, t));
    lemma_fields_with_tag_contains(ps, t, f);
    lemma_tagged_fields_contains(fields, ps, f, t);
}

/// Every tag that a field carries has exactly one enumerator, and every
/// enumerator lists at least one field.
pub proof fn law_one_enumerator_per_tag(fields: Seq<FieldView>, gs: Seq<TagGroupView>)
    requires
        spec_collect(fields) == Ok::<Seq<TagGroupView>, ErrorView>(gs),
    ensures
        forall|k1: int, k2: int| 0 <= k1 < gs.len() && 0 <= k2 < gs.len() && gs[k1].tag == gs[k2].tag ==> k1 == k2,
        forall|i: int, f: Seq<char>, t: Seq<char>| #[trigger] field_has_tag(fields, i, f, t)
            ==> exists|k: int| 0 <= k < gs.len() && gs[k].tag == t,
        forall|k: int| 0 <= k < gs.len() ==> (#[trigger] gs[k]).fields.len() > 0,
{
    let ps = tagged_fields(fields)->Ok_0;
    let tags = tags_in_order(ps);
    lemma_tags_in_order_distinct(ps);
    assert forall|k1: int, k2: int| 0 <= k1 < gs.len() && 0 <= k2 < gs.len() && gs[k1].tag == gs[k2].tag
        implies k1 == k2 by {
        assert(tags[k1] == tags[k2]);
    }
    assert forall|i: int, f: Seq<char>, t: Seq<char>| #[trigger] field_has_tag(fields, i, f, t)
        implies exists|k: int| 0 <= k < gs.len() && gs[k].tag == t by {
        lemma_tagged_fields_contains(fields, ps, f, t);
        let m: int = choose|m: int| 0 <= m < ps.len() && ps[m] == (f, t);
        assert(ps[m].1 == t);
        lemma_tags_in_order_contains(ps, t);
        let k: int = choose|k: int| 0 <= k < tags.len() && tags[k] == t;
        assert(gs[k].tag == t);
    }
    assert forall|k: int| 0 <= k < gs.len() implies (#[trigger] gs[k]).fields.len() > 0 by {
        lemma_fields_with_tag_contains(ps, tags[k], seq![]);
        assert(tags.contains(tags[k]));
    }
}

/// The concatenation of two results of sequences: the first refusal, or
/// both sequences one after the other.
pub open spec fn concat_results<A>(r1: Result<Seq<A>, ErrorView>, r2: Result<Seq<A>, ErrorView>) -> Result<Seq<A>, ErrorView> {
    match r1 {
        Err(e) => Err(e),
        Ok(p) => match r2 {
            Err(e) => Err(e),
            Ok(q) => Ok(p + q),
        },
    }
}

/// The tags of two runs of attributes, one after the other.
pub proof fn lemma_field_tags_concat(field: Seq<char>, x: Seq<AttributeView>, y: Seq<AttributeView>)
    ensures
        field_tags(field, x + y) == concat_results(field_tags(field, x), field_tags(field, y)),
    decreases y.len(),
{
    if y.len() == 0 {
        assert(x + y =~= x);
        if let Ok(p) = field_tags(field, x) {
            assert(p + seq![] =~= p);
        }
    } else {
        assert((x + y).drop_last() =~= x + y.drop_last());
        assert((x + y).last() == y.last());
        lemma_field_tags_concat(field, x, y.drop_last());
        if let (Ok(p), Ok(q)) = (field_tags(field, x), field_tags(field, y.drop_last())) {
            if let Some(Ok(t)) = attribute_tag(field, y.last()) {
                assert((p + q).push(t) =~= p + q.push(t));
            }
        }
    }
}

/// The pairs of two runs of fields, one after the other.
pub proof fn lemma_tagged_fields_concat(x: Seq<FieldView>, y: Seq<FieldView>)
    ensures
        tagged_fields(x + y) == concat_results(tagged_fields(x), tagged_fields(y)),
    decreases y.len(),
{
    if y.len() == 0 {
        assert(x + y =~= x);
        if let Ok(p) = tagged_fields(x) {
            assert(p + seq![] =~= p);
        }
    } else {
        assert((x + y).drop_last() =~= x + y.drop_last());
        assert((x + y).last() == y.last());
        lemma_tagged_fields_concat(x, y.drop_last());
        if let (Ok(p), Ok(q)) = (tagged_fields(x), tagged_fields(y.drop_last())) {
            if let Some(name) = y.last().ident {
                if let Ok(ts) = field_tags(name, y.last().attrs) {
                    assert((p + q) + tag_pairs(name, ts) =~= p + (q + tag_pairs(name, ts)));
                }
            }
        }
    }
}

/// The fields of a tag in two runs of pairs, one after the other.
pub proof fn lemma_fields_with_tag_concat(p: Seq<(Seq<char>, Seq<char>)>, q: Seq<(Seq<char>, Seq<char>)>, t: Seq<char>)
    ensures
        fields_with_tag(p + q, t) == fields_with_tag(p, t) + fields_with_tag(q, t),
    decreases q.len(),
{
    if q.len() == 0 {
        assert(p + q =~= p);
        assert(fields_with_tag(p, t) + seq![] =~= fields_with_tag(p, t));
    } else {
        assert((p + q).drop_last() =~= p + q.drop_last());
        assert((p + q).last() == q.last());
        lemma_fields_with_tag_concat(p, q.drop_last(), t);
        assert((fields_with_tag(p, t) + fields_with_tag(q.drop_last(), t)).push(q.last().0)
            =~= fields_with_tag(p, t) + fields_with_tag(q.drop_last(), t).push(q.last().0));
    }
}

/// The field `field` once for each of its attributes that is `#[tag(t)]`,
/// in attribute order.
pub open spec fn attr_entries(field: Seq<char>, attrs: Seq<AttributeView>, t: Seq<char>) -> Seq<Seq<char>>
    decreases attrs.len(),
{
    if attrs.len() == 0 {
        seq![]
    } else {
        attr_entries(field, attrs.drop_last(), t) + if attribute_tag(field, attrs.last()) == Some(Ok::<Seq<char>, ErrorView>(t)) {
            seq![field]
        } else {
            Seq::<Seq<char>>::empty()
        }
    }
}

/// The named fields that carry `#[tag(t)]`, in declaration order, each once
/// for each such attribute.
pub open spec fn declared_entries(fields: Seq<FieldView>, t: Seq<char>) -> Seq<Seq<char>>
    decreases fields.len(),
{
    if fields.len() == 0 {
        seq![]
    } else {
        declared_entries(fields.drop_last(), t) + match fields.last().ident {
            Some(name) => attr_entries(name, fields.last().attrs, t),
            None => Seq::<Seq<char>>::empty(),
        }
    }
}

proof fn lemma_tag_pairs_entries(field: Seq<char>, attrs: Seq<AttributeView>, ts: Seq<Seq<char>>, t: Seq<char>)
    requires
        field_tags(field, attrs) == Ok::<Seq<Seq<char>>, ErrorView>(ts),
    ensures
        fields_with_tag(tag_pairs(field, ts), t) == attr_entries(field, attrs, t),
    decreases attrs.len(),
{
    if attrs.len() == 0 {
        assert(tag_pairs(field, ts) =~= Seq::<(Seq<char>, Seq<char>)>::empty());
    } else {
        let prev = attrs.drop_last();
        let ts0 = field_tags(field, prev)->Ok_0;
        lemma_tag_pairs_entries(field, prev, ts0, t);
        match attribute_tag(field, attrs.last()) {
            Some(Ok(u)) => {
                assert(ts == ts0.push(u));
                assert(tag_pairs(field, ts) =~= tag_pairs(field, ts0).push((field, u)));
                assert(tag_pairs(field, ts).drop_last() =~= tag_pairs(field, ts0));
                if u == t {
                    assert(attr_entries(field, prev, t) + seq![field] =~= attr_entries(field, prev, t).push(field));
                } else {
                    assert(attr_entries(field, prev, t) + Seq::<Seq<char>>::empty() =~= attr_entries(field, prev, t));
                }
            },
            _ => {
                assert(ts == ts0);
                assert(attr_entries(field, prev, t) + Seq::<Seq<char>>::empty() =~= attr_entries(field, prev, t));
            },
        }
    }
}

proof fn lemma_fields_with_tag_declared(fields: Seq<FieldView>, ps: Seq<(Seq<char>, Seq<char>)>, t: Seq<char>)
    requires
        tagged_fields(fields) == Ok::<Seq<(Seq<char>, Seq<char>)>, ErrorView>(ps),
    ensures
        fields_with_tag(ps, t) == declared_entries(fields, t),
    decreases fields.len(),
{
    if fields.len() > 0 {
        let prev = fields.drop_last();
        let ps0 = tagged_fields(prev)->Ok_0;
        lemma_fields_with_tag_declared(prev, ps0, t);
        let name = fields.last().ident->Some_0;
        let ts = field_tags(name, fields.last().attrs)->Ok_0;
        lemma_fields_with_tag_concat(ps0, tag_pairs(name, ts), t);
        lemma_tag_pairs_entries(name, fields.last().attrs, ts, t);
    }
}

/// The fields listed for the tag `t` among the groups: those of the group
/// whose tag is `t`, or none when no group has that tag.
pub open spec fn group_fields(gs: Seq<TagGroupView>, t: Seq<char>) -> Seq<Seq<char>> {
    if exists|k: int| 0 <= k < gs.len() && gs[k].tag == t {
        gs[choose|k: int| 0 <= k < gs.len() && gs[k].tag == t].fields
    } else {
        seq![]
    }
}

proof fn lemma_group_fields(ps: Seq<(Seq<char>, Seq<char>)>, t: Seq<char>)
    ensures
        group_fields(tag_groups(ps), t) == fields_with_tag(ps, t),
{
    let gs = tag_groups(ps);
    let tags = tags_in_order(ps);
    if exists|k: int| 0 <= k < gs.len() && gs[k].tag == t {
        let k: int = choose|k: int| 0 <= k < gs.len() && gs[k].tag == t;
        assert(tags[k] == t);
    } else {
        if tags.contains(t) {
            let k: int = choose|k: int| 0 <= k < tags.len() && tags[k] == t;
            assert(gs[k].tag == t);
        }
        lemma_fields_with_absent_tag(ps, t);
    }
}

/// Per tag, the enumerator lists the named fields that carry `#[tag(t)]` in
/// declaration order, each once for each such attribute (a field tagged
/// twice with one tag is listed twice); a tag that no field carries has no
/// fields listed.
pub proof fn law_group_lists_declared_entries(fields: Seq<FieldView>, gs: Seq<TagGroupView>, t: Seq<char>)
    requires
        spec_collect(fields) == Ok::<Seq<TagGroupView>, ErrorView>(gs),
    ensures
        group_fields(gs, t) == declared_entries(fields, t),
{
    let ps = tagged_fields(fields)->Ok_0;
    lemma_group_fields(ps, t);
    lemma_fields_with_tag_declared(fields, ps, t);
}

/// Grouping two runs of fields one after the other: it is refused when
/// either run is (the first run's refusal first); otherwise, for every tag,
/// the fields listed are those of the first run followed by those of the
/// second.
pub proof fn law_grouping_of_concatenation(x: Seq<FieldView>, y: Seq<FieldView>, t: Seq<char>)
    ensures
        (spec_collect(x + y) is Ok) == (spec_collect(x) is Ok && spec_collect(y) is Ok),
        spec_collect(x) matches Err(e) ==> spec_collect(x + y) == Err::<Seq<TagGroupView>, ErrorView>(e),
        spec_collect(x) is Ok ==> (spec_collect(y) matches Err(e) ==> spec_collect(x + y) == Err::<Seq<TagGroupView>, ErrorView>(e)),
        (spec_collect(x + y) is Ok) ==> group_fields(spec_collect(x + y)->Ok_0, t)
            == group_fields(spec_collect(x)->Ok_0, t) + group_fields(spec_collect(y)->Ok_0, t),
{
    lemma_tagged_fields_concat(x, y);
    if let (Ok(p), Ok(q)) = (tagged_fields(x), tagged_fields(y)) {
        lemma_group_fields(p + q, t);
        lemma_group_fields(p, t);
        lemma_group_fields(q, t);
        lemma_fields_with_tag_concat(p, q, t);
    }
}

/// A named field without `#[tag ..]` attributes changes nothing, wherever it
/// is inserted among the fields.
pub proof fn law_untagged_field_changes_nothing(x: Seq<FieldView>, u: FieldView, y: Seq<FieldView>)
    requires
        u.ident is Some,
        forall|j: int| 0 <= j < u.attrs.len() ==> attribute_tag(u.ident->Some_0, #[trigger] u.attrs[j]) is None,
    ensures
        spec_collect(x + seq![u] + y) == spec_collect(x + y),
{
    let name = u.ident->Some_0;
    assert(field_tags(name, u.attrs) == Ok::<Seq<Seq<char>>, ErrorView>(seq![])) by {
        lemma_no_tags(name, u.attrs);
    }
    let one = seq![u];
    assert(one.drop_last() =~= Seq::<FieldView>::empty());
    assert(tag_pairs(name, seq![]) =~= Seq::<(Seq<char>, Seq<char>)>::empty());
    assert(one.last() == u);
    assert(tagged_fields(one.drop_last()) == Ok::<Seq<(Seq<char>, Seq<char>)>, ErrorView>(seq![]));
    assert(Seq::<(Seq<char>, Seq<char>)>::empty() + tag_pairs(name, seq![]) =~= Seq::<(Seq<char>, Seq<char>)>::empty());
    assert(tagged_fields(one) == Ok::<Seq<(Seq<char>, Seq<char>)>, ErrorView>(seq![]));
    lemma_tagged_fields_concat(x, one);
    lemma_tagged_fields_concat(x + one, y);
    lemma_tagged_fields_concat(x, y);
    if let Ok(p) = tagged_fields(x) {
        assert(p + seq![] =~= p);
    }
}

proof fn lemma_no_tags(field: Seq<char>, attrs: Seq<AttributeView>)
    requires
        forall|j: int| 0 <= j < attrs.len() ==> attribute_tag(field, #[trigger] attrs[j]) is None,
    ensures
        field_tags(field, attrs) == Ok::<Seq<Seq<char>>, ErrorView>(seq![]),
    decreases attrs.len(),
{
    if attrs.len() > 0 {
        let prev = attrs.drop_last();
        assert forall|j: int| 0 <= j < prev.len() implies attribute_tag(field, #[trigger] prev[j]) is None by {
            assert(prev[j] == attrs[j]);
        }
        lemma_no_tags(field, prev);
        assert(attribute_tag(field, attrs[attrs.len() - 1]) is None);
    }
}

/// An attribute that is not `#[tag ..]` changes nothing, wherever it is
/// inserted among the attributes of a field.
pub proof fn law_other_attribute_changes_nothing(
    x: Seq<FieldView>,
    name: Seq<char>,
    a1: Seq<AttributeView>,
    other: AttributeView,
    a2: Seq<AttributeView>,
    y: Seq<FieldView>,
)
    requires
        other.path_ident != Some(tag_attribute_name()),
    ensures
        spec_collect(x + seq![FieldView { ident: Some(name), attrs: a1 + seq![other] + a2 }] + y)
            == spec_collect(x + seq![FieldView { ident: Some(name), attrs: a1 + a2 }] + y),
{
    let with = FieldView { ident: Some(name), attrs: a1 + seq![other] + a2 };
    let without = FieldView { ident: Some(name), attrs: a1 + a2 };
    lemma_field_tags_concat(name, a1, seq![other]);
    lemma_field_tags_concat(name, a1 + seq![other], a2);
    lemma_field_tags_concat(name, a1, a2);
    let one: Seq<AttributeView> = seq![other];
    assert(one.drop_last() =~= Seq::<AttributeView>::empty());
    assert(one.last() == other);
    assert(attribute_tag(name, other) is None);
    assert(field_tags(name, one.drop_last()) == Ok::<Seq<Seq<char>>, ErrorView>(seq![]));
    assert(field_tags(name, one) == Ok::<Seq<Seq<char>>, ErrorView>(seq![]));
    if let Ok(p) = field_tags(name, a1) {
        assert(p + seq![] =~= p);
    }
    assert(field_tags(name, with.attrs) == field_tags(name, without.attrs));
    assert(seq![with].drop_last() =~= Seq::<FieldView>::empty());
    assert(seq![without].drop_last() =~= Seq::<FieldView>::empty());
    assert(tagged_fields(seq![with]) == tagged_fields(seq![without]));
    lemma_tagged_fields_concat(x, seq![with]);
    lemma_tagged_fields_concat(x, seq![without]);
    lemma_tagged_fields_concat(x + seq![with], y);
    lemma_tagged_fields_concat(x + seq![without], y);
}

/// Whether every field is named and no `#[tag ..]` attribute of a field is refused.
pub open spec fn tags_well_formed(fields: Seq<FieldView>) -> bool {
    forall|i: int| 0 <= i < fields.len() ==> {
        &&& (#[trigger] fields[i]).ident is Some
        &&& forall|j: int| 0 <= j < fields[i].attrs.len()
            ==> !(attribute_tag(fields[i].ident->Some_0, #[trigger] fields[i].attrs[j]) matches Some(Err(_)))
    }
}

proof fn lemma_field_tags_ok(field: Seq<char>, attrs: Seq<AttributeView>)
    ensures
        field_tags(field, attrs) is Ok <==> forall|j: int| 0 <= j < attrs.len()
            ==> !(attribute_tag(field, #[trigger] attrs[j]) matches Some(Err(_))),
    decreases attrs.len(),
{
    if attrs.len() > 0 {
        let prev = attrs.drop_last();
        lemma_field_tags_ok(field, prev);
        if field_tags(field, attrs) is Ok {
            assert forall|j: int| 0 <= j < attrs.len()
                implies !(attribute_tag(field, #[trigger] attrs[j]) matches Some(Err(_))) by {
                if j < prev.len() {
                    assert(prev[j] == attrs[j]);
                }
            }
        } else {
            if field_tags(field, prev) is Err {
                let j: int = choose|j: int| 0 <= j < prev.len()
                    && (attribute_tag(field, #[trigger] prev[j]) matches Some(Err(_)));
                assert(prev[j] == attrs[j]);
            } else {
                assert(attribute_tag(field, attrs[attrs.len() - 1]) matches Some(Err(_)));
            }
        }
    }
}

/// Grouping succeeds exactly on well-formed fields: every field named and
/// every `#[tag ..]` attribute a parenthesized, non-empty list of paths whose
/// last is one identifier.
pub proof fn law_grouping_succeeds_exactly_when_well_formed(fields: Seq<FieldView>)
    ensures
        spec_collect(fields) is Ok <==> tags_well_formed(fields),
    decreases fields.len(),
{
    if fields.len() > 0 {
        let prev = fields.drop_last();
        let last = fields.last();
        law_grouping_succeeds_exactly_when_well_formed(prev);
        if let Some(name) = last.ident {
            lemma_field_tags_ok(name, last.attrs);
        }
        if tags_well_formed(fields) {
            assert forall|i: int| 0 <= i < prev.len() implies {
                &&& (#[trigger] prev[i]).ident is Some
                &&& forall|j: int| 0 <= j < prev[i].attrs.len()
                    ==> !(attribute_tag(prev[i].ident->Some_0, #[trigger] prev[i].attrs[j]) matches Some(Err(_)))
            } by {
                assert(prev[i] == fields[i]);
            }
            assert(fields[fields.len() - 1] == last);
        } else if tags_well_formed(prev) && last.ident is Some {
            let i: int = choose|i: int| 0 <= i < fields.len() && !{
                &&& (#[trigger] fields[i]).ident is Some
                &&& forall|j: int| 0 <= j < fields[i].attrs.len()
                    ==> !(attribute_tag(fields[i].ident->Some_0, #[trigger] fields[i].attrs[j]) matches Some(Err(_)))
            };
            if i < prev.len() {
                assert(prev[i] == fields[i]);
            } else {
                assert(fields[i] == last);
            }
        } else if !tags_well_formed(prev) {
            let i: int = choose|i: int| 0 <= i < prev.len() && !{
                &&& (#[trigger] prev[i]).ident is Some
                &&& forall|j: int| 0 <= j < prev[i].attrs.len()
                    ==> !(attribute_tag(prev[i].ident->Some_0, #[trigger] prev[i].attrs[j]) matches Some(Err(_)))
            };
            assert(prev[i] == fields[i]);
        } else {
            assert(fields[fields.len() - 1] == last);
        }
    }
}

/// Whether a refusal is one of those that a `#[tag ..]` attribute causes.
pub open spec fn is_tag_refusal(e: ErrorView) -> bool {
    e is MalformedTag || e is EmptyTag || e is TagNotIdent
}

proof fn lemma_field_tags_refusal_kind(field: Seq<char>, attrs: Seq<AttributeView>)
    ensures
        field_tags(field, attrs) matches Err(e) ==> is_tag_refusal(e),
    decreases attrs.len(),
{
    if attrs.len() > 0 {
        lemma_field_tags_refusal_kind(field, attrs.drop_last());
    }
}

/// When every field is named, the only refusals of the grouping are those
/// that `#[tag ..]` attributes cause.
pub proof fn law_named_fields_refused_only_for_tags(fields: Seq<FieldView>)
    requires
        forall|i: int| 0 <= i < fields.len() ==> (#[trigger] fields[i]).ident is Some,
    ensures
        spec_collect(fields) matches Err(e) ==> is_tag_refusal(e),
    decreases fields.len(),
{
    if fields.len() > 0 {
        let prev = fields.drop_last();
        assert forall|i: int| 0 <= i < prev.len() implies (#[trigger] prev[i]).ident is Some by {
            assert(prev[i] == fields[i]);
        }
        law_named_fields_refused_only_for_tags(prev);
        assert(fields[fields.len() - 1] == fields.last());
        lemma_field_tags_refusal_kind(fields.last().ident->Some_0, fields.last().attrs);
    }
}

/// Whether an attribute is a `#[tag ..]` attribute.
pub open spec fn is_tag_attribute(a: AttributeView) -> bool {
    a.path_ident == Some(tag_attribute_name())
}

/// The number of `#[tag ..]` attributes among the attributes.
pub open spec fn attr_tag_count(attrs: Seq<AttributeView>) -> nat
    decreases attrs.len(),
{
    if attrs.len() == 0 {
        0
    } else {
        attr_tag_count(attrs.drop_last()) + if is_tag_attribute(attrs.last()) { 1nat } else { 0nat }
    }
}

/// The number of `#[tag ..]` attributes over all fields.
pub open spec fn tag_attribute_count(fields: Seq<FieldView>) -> nat
    decreases fields.len(),
{
    if fields.len() == 0 {
        0
    } else {
        tag_attribute_count(fields.drop_last()) + attr_tag_count(fields.last().attrs)
    }
}

/// The number of fields listed over all groups.
pub open spec fn listed_count(gs: Seq<TagGroupView>) -> nat
    decreases gs.len(),
{
    if gs.len() == 0 {
        0
    } else {
        listed_count(gs.drop_last()) + gs.last().fields.len()
    }
}

proof fn lemma_field_tags_len(field: Seq<char>, attrs: Seq<AttributeView>, ts: Seq<Seq<char>>)
    requires
        field_tags(field, attrs) == Ok::<Seq<Seq<char>>, ErrorView>(ts),
    ensures
        ts.len() == attr_tag_count(attrs),
    decreases attrs.len(),
{
    if attrs.len() > 0 {
        let prev = attrs.drop_last();
        lemma_field_tags_len(field, prev, field_tags(field, prev)->Ok_0);
    }
}

proof fn lemma_pairs_len(fields: Seq<FieldView>, ps: Seq<(Seq<char>, Seq<char>)>)
    requires
        tagged_fields(fields) == Ok::<Seq<(Seq<char>, Seq<char>)>, ErrorView>(ps),
    ensures
        ps.len() == tag_attribute_count(fields),
    decreases fields.len(),
{
    if fields.len() > 0 {
        let prev = fields.drop_last();
        lemma_pairs_len(prev, tagged_fields(prev)->Ok_0);
        let name = fields.last().ident->Some_0;
        lemma_field_tags_len(name, fields.last().attrs, field_tags(name, fields.last().attrs)->Ok_0);
    }
}

proof fn lemma_listed_count_update(gs: Seq<TagGroupView>, k: int, g: TagGroupView)
    requires
        0 <= k < gs.len(),
    ensures
        listed_count(gs.update(k, g)) + gs[k].fields.len() == listed_count(gs) + g.fields.len(),
    decreases gs.len(),
{
    let u = gs.update(k, g);
    if k == gs.len() - 1 {
        assert(u.drop_last() =~= gs.drop_last());
    } else {
        assert(u.drop_last() =~= gs.drop_last().update(k, g));
        lemma_listed_count_update(gs.drop_last(), k, g);
    }
}

proof fn lemma_listed_count_tag_groups(ps: Seq<(Seq<char>, Seq<char>)>)
    ensures
        listed_count(tag_groups(ps)) == ps.len(),
    decreases ps.len(),
{
    if ps.len() == 0 {
        assert(tag_groups(ps) =~= Seq::<TagGroupView>::empty());
    } else {
        let prev = ps.drop_last();
        let (f, t) = ps.last();
        assert(prev.push((f, t)) =~= ps);
        lemma_listed_count_tag_groups(prev);
        lemma_tag_groups_push(prev, f, t);
        let gs = tag_groups(prev);
        if tags_in_order(prev).contains(t) {
            let k: int = choose|k: int| 0 <= k < gs.len() && gs[k].tag == t
                && tag_groups(prev.push((f, t))) == gs.update(k, TagGroupView { tag: t, fields: gs[k].fields.push(f) });
            lemma_listed_count_update(gs, k, TagGroupView { tag: t, fields: gs[k].fields.push(f) });
        } else {
            let next = gs.push(TagGroupView { tag: t, fields: seq![f] });
            assert(next.drop_last() =~= gs);
        }
    }
}

/// Over all groups, the fields listed number exactly the `#[tag(..)]`
/// attributes of the fields: each attribute lists its field once, and
/// nothing is merged.
pub proof fn law_listed_fields_count_tag_attributes(fields: Seq<FieldView>, gs: Seq<TagGroupView>)
    requires
        spec_collect(fields) == Ok::<Seq<TagGroupView>, ErrorView>(gs),
    ensures
        listed_count(gs) == tag_attribute_count(fields),
{
    let ps = tagged_fields(fields)->Ok_0;
    lemma_listed_count_tag_groups(ps);
    lemma_pairs_len(fields, ps);
}

/// The `#[tag ..]` attributes among the attributes, in order.
pub open spec fn tag_attributes(attrs: Seq<AttributeView>) -> Seq<AttributeView>
    decreases attrs.len(),
{
    if attrs.len() == 0 {
        seq![]
    } else {
        tag_attributes(attrs.drop_last()) + if is_tag_attribute(attrs.last()) {
            seq![attrs.last()]
        } else {
            Seq::<AttributeView>::empty()
        }
    }
}

/// What of a struct's fields the grouping reads: every field that is
/// unnamed or has a `#[tag ..]` attribute, in order, with only its
/// `#[tag ..]` attributes.
pub open spec fn tag_skeleton(fields: Seq<FieldView>) -> Seq<FieldView>
    decreases fields.len(),
{
    if fields.len() == 0 {
        seq![]
    } else {
        let last = fields.last();
        tag_skeleton(fields.drop_last()) + if last.ident is Some && tag_attributes(last.attrs).len() == 0 {
            Seq::<FieldView>::empty()
        } else {
            seq![FieldView { ident: last.ident, attrs: tag_attributes(last.attrs) }]
        }
    }
}

proof fn lemma_one_attribute(field: Seq<char>, a: AttributeView)
    ensures
        field_tags(field, seq![a]) == match attribute_tag(field, a) {
            None => Ok::<Seq<Seq<char>>, ErrorView>(seq![]),
            Some(Err(e)) => Err(e),
            Some(Ok(t)) => Ok(seq![t]),
        },
{
    let one: Seq<AttributeView> = seq![a];
    assert(one.drop_last() =~= Seq::<AttributeView>::empty());
    assert(one.last() == a);
    assert(field_tags(field, one.drop_last()) == Ok::<Seq<Seq<char>>, ErrorView>(seq![]));
    if let Some(Ok(t)) = attribute_tag(field, a) {
        assert(Seq::<Seq<char>>::empty().push(t) =~= seq![t]);
    }
}

proof fn lemma_field_tags_of_tag_attributes(field: Seq<char>, attrs: Seq<AttributeView>)
    ensures
        field_tags(field, tag_attributes(attrs)) == field_tags(field, attrs),
    decreases attrs.len(),
{
    if attrs.len() > 0 {
        let prev = attrs.drop_last();
        let last = attrs.last();
        lemma_field_tags_of_tag_attributes(field, prev);
        assert(prev.push(last) =~= attrs);
        lemma_field_tags_concat(field, prev, seq![last]);
        assert(prev + seq![last] =~= attrs);
        lemma_one_attribute(field, last);
        if is_tag_attribute(last) {
            lemma_field_tags_concat(field, tag_attributes(prev), seq![last]);
        } else {
            assert(tag_attributes(attrs) =~= tag_attributes(prev));
            if let Ok(p) = field_tags(field, prev) {
                assert(p + seq![] =~= p);
            }
        }
    }
}

proof fn lemma_tagged_fields_one(u: FieldView)
    ensures
        tagged_fields(seq![u]) == match u.ident {
            None => Err::<Seq<(Seq<char>, Seq<char>)>, ErrorView>(ErrorView::FieldsNotNamed),
            Some(name) => match field_tags(name, u.attrs) {
                Err(e) => Err(e),
                Ok(ts) => Ok(tag_pairs(name, ts)),
            },
        },
{
    let one = seq![u];
    assert(one.drop_last() =~= Seq::<FieldView>::empty());
    assert(one.last() == u);
    assert(tagged_fields(one.drop_last()) == Ok::<Seq<(Seq<char>, Seq<char>)>, ErrorView>(seq![]));
    if let Some(name) = u.ident {
        if let Ok(ts) = field_tags(name, u.attrs) {
            assert(Seq::<(Seq<char>, Seq<char>)>::empty() + tag_pairs(name, ts) =~= tag_pairs(name, ts));
        }
    }
}

proof fn lemma_tagged_fields_skeleton(fields: Seq<FieldView>)
    ensures
        tagged_fields(tag_skeleton(fields)) == tagged_fields(fields),
    decreases fields.len(),
{
    if fields.len() > 0 {
        let prev = fields.drop_last();
        let last = fields.last();
        lemma_tagged_fields_skeleton(prev);
        assert(prev + seq![last] =~= fields);
        lemma_tagged_fields_concat(prev, seq![last]);
        lemma_tagged_fields_one(last);
        if let Some(name) = last.ident {
            lemma_field_tags_of_tag_attributes(name, last.attrs);
        }
        let stripped = FieldView { ident: last.ident, attrs: tag_attributes(last.attrs) };
        lemma_tagged_fields_one(stripped);
        if last.ident is Some && tag_attributes(last.attrs).len() == 0 {
            let name = last.ident->Some_0;
            assert(tag_attributes(last.attrs) =~= Seq::<AttributeView>::empty());
            assert(field_tags(name, Seq::<AttributeView>::empty()) == Ok::<Seq<Seq<char>>, ErrorView>(seq![]));
            assert(tag_pairs(name, seq![]) =~= Seq::<(Seq<char>, Seq<char>)>::empty());
            assert(tag_skeleton(fields) =~= tag_skeleton(prev));
            if let Ok(p) = tagged_fields(prev) {
                assert(p + seq![] =~= p);
            }
        } else {
            lemma_tagged_fields_concat(tag_skeleton(prev), seq![stripped]);
        }
    }
}

/// Only the fields' names and their `#[tag ..]` attributes matter: two field
/// lists that agree on those, once fields that are named and carry no
/// `#[tag ..]` attribute are left out, are grouped alike (any mix of
/// inserted or removed other attributes and untagged fields).
pub proof fn law_only_the_tag_skeleton_matters(x: Seq<FieldView>, y: Seq<FieldView>)
    requires
        tag_skeleton(x) == tag_skeleton(y),
    ensures
        spec_collect(x) == spec_collect(y),
{
    lemma_tagged_fields_skeleton(x);
    lemma_tagged_fields_skeleton(y);
}

/// The entries of two runs of fields, one after the other.
proof fn lemma_declared_entries_concat(x: Seq<FieldView>, y: Seq<FieldView>, t: Seq<char>)
    ensures
        declared_entries(x + y, t) == declared_entries(x, t) + declared_entries(y, t),
    decreases y.len(),
{
    if y.len() == 0 {
        assert(x + y =~= x);
        assert(declared_entries(x, t) + seq![] =~= declared_entries(x, t));
    } else {
        assert((x + y).drop_last() =~= x + y.drop_last());
        assert((x + y).last() == y.last());
        lemma_declared_entries_concat(x, y.drop_last(), t);
        let e = match y.last().ident {
            Some(name) => attr_entries(name, y.last().attrs, t),
            None => Seq::<Seq<char>>::empty(),
        };
        assert((declared_entries(x, t) + declared_entries(y.drop_last(), t)) + e
            =~= declared_entries(x, t) + (declared_entries(y.drop_last(), t) + e));
    }
}

/// A field that carries `#[tag(t)]` has entries, all of them its name.
proof fn lemma_attr_entries_of_tagged(field: Seq<char>, attrs: Seq<AttributeView>, t: Seq<char>)
    ensures
        forall|m: int| 0 <= m < attr_entries(field, attrs, t).len() ==> #[trigger] attr_entries(field, attrs, t)[m] == field,
        (exists|j: int| 0 <= j < attrs.len() && #[trigger] attribute_tag(field, attrs[j]) == Some(Ok::<Seq<char>, ErrorView>(t)))
            ==> attr_entries(field, attrs, t).len() > 0,
    decreases attrs.len(),
{
    if attrs.len() > 0 {
        let prev = attrs.drop_last();
        lemma_attr_entries_of_tagged(field, prev, t);
        if exists|j: int| 0 <= j < attrs.len() && #[trigger] attribute_tag(field, attrs[j]) == Some(Ok::<Seq<char>, ErrorView>(t)) {
            let j: int = choose|j: int| 0 <= j < attrs.len() && #[trigger] attribute_tag(field, attrs[j]) == Some(Ok::<Seq<char>, ErrorView>(t));
            if j < prev.len() {
                assert(prev[j] == attrs[j]);
            }
        }
    }
}

proof fn lemma_entry_at_field(fields: Seq<FieldView>, i: int, f: Seq<char>, t: Seq<char>)
    requires
        field_has_tag(fields, i, f, t),
    ensures
        declared_entries(fields.take(i), t).len() < declared_entries(fields.take(i + 1), t).len(),
        declared_entries(fields, t).len() >= declared_entries(fields.take(i + 1), t).len(),
        declared_entries(fields, t)[declared_entries(fields.take(i), t).len() as int] == f,
{
    let pre = fields.take(i);
    let upto = fields.take(i + 1);
    assert(upto.drop_last() =~= pre);
    assert(upto.last() == fields[i]);
    lemma_attr_entries_of_tagged(f, fields[i].attrs, t);
    let e = attr_entries(f, fields[i].attrs, t);
    assert(declared_entries(upto, t) == declared_entries(pre, t) + e);
    assert(upto + fields.skip(i + 1) =~= fields);
    lemma_declared_entries_concat(upto, fields.skip(i + 1), t);
    let n = declared_entries(pre, t).len() as int;
    assert(e[0] == f);
    assert(declared_entries(fields, t)[n] == (declared_entries(pre, t) + e)[n]);
}

/// Two fields that both carry `#[tag(t)]` are listed in declaration order:
/// the earlier field's entry comes before the later field's, so the
/// enumerator invokes the callback on the earlier field first.
pub proof fn law_tagged_fields_in_declaration_order(
    fields: Seq<FieldView>,
    gs: Seq<TagGroupView>,
    t: Seq<char>,
    i: int,
    fi: Seq<char>,
    j: int,
    fj: Seq<char>,
)
    requires
        spec_collect(fields) == Ok::<Seq<TagGroupView>, ErrorView>(gs),
        i < j,
        field_has_tag(fields, i, fi, t),
        field_has_tag(fields, j, fj, t),
    ensures
        exists|p: int, q: int| 0 <= p < q < group_fields(gs, t).len()
            && #[trigger] group_fields(gs, t)[p] == fi && #[trigger] group_fields(gs, t)[q] == fj,
{
    law_group_lists_declared_entries(fields, gs, t);
    lemma_entry_at_field(fields, i, fi, t);
    lemma_entry_at_field(fields, j, fj, t);
    let p = declared_entries(fields.take(i), t).len() as int;
    let q = declared_entries(fields.take(j), t).len() as int;
    assert(fields.take(j) =~= fields.take(i + 1) + fields.take(j).skip(i + 1));
    lemma_declared_entries_concat(fields.take(i + 1), fields.take(j).skip(i + 1), t);
    assert(p < q);
    assert(group_fields(gs, t)[p] == fi && group_fields(gs, t)[q] == fj);
}

/// A `#[tag(.., x)]` attribute, whose arguments are a non-empty list of
/// paths the last of which is the identifier `x`, is never refused and
/// names `x`, whatever the field that carries it.
pub proof fn law_tag_attribute_names_its_last_argument(
    field: Seq<char>,
    a: AttributeView,
    ps: Seq<Option<Seq<char>>>,
    x: Seq<char>,
)
    requires
        a.path_ident == Some(seq!['t', 'a', 'g']),
        a.nested == Some(ps),
        ps.len() > 0,
        ps.last() == Some(x),
    ensures
        attribute_tag(field, a) == Some(Ok::<Seq<char>, ErrorView>(x)),
{
    reveal_strlit("tag");
    assert(tag_attribute_name() =~= seq!['t', 'a', 'g']);
}

/// An attribute whose path is not the identifier `tag` contributes nothing,
/// whatever the field that carries it.
pub proof fn law_other_attribute_contributes_nothing(field: Seq<char>, a: AttributeView)
    requires
        a.path_ident != Some(seq!['t', 'a', 'g']),
    ensures
        attribute_tag(field, a) is None,
{
    reveal_strlit("tag");
    assert(tag_attribute_name() =~= seq!['t', 'a', 'g']);
}

/// Whether an attribute, if it is `#[tag ..]`, is a non-empty parenthesized
/// list of paths whose last is one identifier.
pub open spec fn plain_tag_well_formed(a: AttributeView) -> bool {
    a.path_ident == Some(seq!['t', 'a', 'g']) ==> (a.nested matches Some(ps) && ps.len() > 0 && ps.last() is Some)
}

/// A struct whose fields are all named and whose `#[tag ..]` attributes are
/// all non-empty lists of paths ending in an identifier is never refused,
/// and each field is listed under the tag that each of its `#[tag ..]`
/// attributes names.
pub proof fn law_well_formed_fields_are_listed_under_their_tags(
    fields: Seq<FieldView>,
    i: int,
    j: int,
    x: Seq<char>,
)
    requires
        forall|k: int| 0 <= k < fields.len() ==> (#[trigger] fields[k]).ident is Some,
        forall|k: int, l: int| 0 <= k < fields.len() && 0 <= l < fields[k].attrs.len()
            ==> plain_tag_well_formed(#[trigger] fields[k].attrs[l]),
        0 <= i < fields.len(),
        0 <= j < fields[i].attrs.len(),
        fields[i].attrs[j].path_ident == Some(seq!['t', 'a', 'g']),
        fields[i].attrs[j].nested->Some_0.last() == Some(x),
    ensures
        spec_collect(fields) is Ok,
        exists|k: int| 0 <= k < spec_collect(fields)->Ok_0.len()
            && (#[trigger] spec_collect(fields)->Ok_0[k]).tag == x
            && spec_collect(fields)->Ok_0[k].fields.contains(fields[i].ident->Some_0),
{
    reveal_strlit("tag");
    assert(tag_attribute_name() =~= seq!['t', 'a', 'g']);
    assert forall|k: int| 0 <= k < fields.len() implies {
        &&& (#[trigger] fields[k]).ident is Some
        &&& forall|l: int| 0 <= l < fields[k].attrs.len()
            ==> !(attribute_tag(fields[k].ident->Some_0, #[trigger] fields[k].attrs[l]) matches Some(Err(_)))
    } by {
        assert forall|l: int| 0 <= l < fields[k].attrs.len()
            implies !(attribute_tag(fields[k].ident->Some_0, #[trigger] fields[k].attrs[l]) matches Some(Err(_))) by {
            assert(plain_tag_well_formed(fields[k].attrs[l]));
        }
    }
    law_grouping_succeeds_exactly_when_well_formed(fields);
    let gs = spec_collect(fields)->Ok_0;
    let f = fields[i].ident->Some_0;
    assert(plain_tag_well_formed(fields[i].attrs[j]));
    law_tag_attribute_names_its_last_argument(f, fields[i].attrs[j], fields[i].attrs[j].nested->Some_0, x);
    assert(field_has_tag(fields, i, f, x));
    law_one_enumerator_per_tag(fields, gs);
    let k: int = choose|k: int| 0 <= k < gs.len() && gs[k].tag == x;
    law_enumerated_exactly_when_tagged(fields, gs, k, f);
    assert(gs[k].tag == x && gs[k].fields.contains(f));
}

} // verus!
