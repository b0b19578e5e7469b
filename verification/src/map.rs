//! The header map: headers in the order in which they were added, found
//! by their name.

use vstd::prelude::*;
use vstd::string::StringExecFns;
use crate::encoder::encodes_alike;
use crate::error::HeaderTypeError;
use crate::header::{meta_eq, same_header, Component, HeaderKind, HeaderMeta, HeaderObj};
use crate::name::HeaderName;
use crate::store::{
    not_under, store_add, store_clear, store_contains_key, store_extend, store_get, store_iter,
    store_into_iter, store_len, store_new, store_remove_all, store_set, stored, under, Entry,
    HeaderStore,
};

verus! {

/// The headers of the entries, in order.
pub open spec fn objs(entries: Seq<Entry>) -> Seq<HeaderObj> {
    entries.map_values(|e: Entry| e.1)
}

/// Each entry is kept under the name of its header.
pub open spec fn keyed_by_name(entries: Seq<Entry>) -> bool {
    forall|i: int| 0 <= i < entries.len() ==> (#[trigger] entries[i]).0 == entries[i].1.spec_name()
}

/// The headers named `name` among `headers`, in order.
pub open spec fn with_name(headers: Seq<HeaderObj>, name: Seq<char>) -> Seq<HeaderObj>
    decreases headers.len(),
{
    if headers.len() == 0 {
        Seq::empty()
    } else if headers.last().spec_name() == name {
        with_name(headers.drop_last(), name).push(headers.last())
    } else {
        with_name(headers.drop_last(), name)
    }
}

/// The headers not named `name` among `headers`, in order.
pub open spec fn without_name(headers: Seq<HeaderObj>, name: Seq<char>) -> Seq<HeaderObj>
    decreases headers.len(),
{
    if headers.len() == 0 {
        Seq::empty()
    } else if headers.last().spec_name() == name {
        without_name(headers.drop_last(), name)
    } else {
        without_name(headers.drop_last(), name).push(headers.last())
    }
}

/// Whether a header named `name` is among `headers`.
pub open spec fn has_name(headers: Seq<HeaderObj>, name: Seq<char>) -> bool {
    exists|i: int| 0 <= i < headers.len() && (#[trigger] headers[i]).spec_name() == name
}

/// A header of name `name` with `meta` goes with `headers` if each of
/// them that has the same name has the same `meta`.
pub open spec fn fits(headers: Seq<HeaderObj>, name: Seq<char>, meta: HeaderMeta) -> bool {
    forall|i: int|
        0 <= i < headers.len() && (#[trigger] headers[i]).spec_name() == name
            ==> headers[i].spec_meta() == meta
}

/// Headers are consistent if any two of the same name agree in what
/// comes with their kind.
pub open spec fn consistent(headers: Seq<HeaderObj>) -> bool {
    forall|i: int, j: int|
        0 <= i < headers.len() && 0 <= j < headers.len() && (#[trigger] headers[i]).spec_name() == (
        #[trigger] headers[j]).spec_name() ==> headers[i].spec_meta() == headers[j].spec_meta()
}

/// Every one of `incoming` goes with `headers`.
pub open spec fn all_fit(headers: Seq<HeaderObj>, incoming: Seq<HeaderObj>) -> bool {
    forall|k: int|
        0 <= k < incoming.len() ==> fits(
            headers,
            (#[trigger] incoming[k]).spec_name(),
            incoming[k].spec_meta(),
        )
}

/// The headers as they show themselves for debugging, one after the
/// other: of each its name, `: `, the text of the same index among
/// `bodies`, and a comma.
pub open spec fn debug_entries(headers: Seq<HeaderObj>, bodies: Seq<Seq<char>>) -> Seq<char>
    decreases headers.len(),
{
    if headers.len() == 0 || bodies.len() != headers.len() {
        Seq::empty()
    } else {
        debug_entries(headers.drop_last(), bodies.drop_last()) + headers.last().spec_name() + ": "@
            + bodies.last() + ","@
    }
}

/// The texts in which the bodies of `headers` show themselves for
/// debugging, in order.
pub open spec fn body_texts(headers: Seq<HeaderObj>) -> Seq<Seq<char>> {
    headers.map_values(|h: HeaderObj| h.spec_body().spec_debug())
}

/// A header map as it shows itself for debugging, `bodies` being the
/// texts in which the bodies of its headers show themselves.
pub open spec fn debug_form(headers: Seq<HeaderObj>, bodies: Seq<Seq<char>>) -> Seq<char> {
    "HeaderMap { "@ + debug_entries(headers, bodies) + " }"@
}

proof fn lemma_under_is_with_name(entries: Seq<Entry>, name: Seq<char>)
    requires
        keyed_by_name(entries),
    ensures
        under(entries, name) == with_name(objs(entries), name),
        objs(not_under(entries, name)) == without_name(objs(entries), name),
        keyed_by_name(not_under(entries, name)),
    decreases entries.len(),
{
    if entries.len() == 0 {
        assert(objs(not_under(entries, name)) =~= without_name(objs(entries), name));
    } else {
        let rest = entries.drop_last();
        assert(objs(entries).drop_last() =~= objs(rest));
        assert(objs(entries).last() == entries.last().1);
        assert(keyed_by_name(rest)) by {
            assert forall|i: int| 0 <= i < rest.len() implies (#[trigger] rest[i]).0
                == rest[i].1.spec_name() by {
                assert(rest[i] == entries[i]);
            }
        }
        lemma_under_is_with_name(rest, name);
        assert(entries[entries.len() - 1] == entries.last());
        if entries.last().0 != name {
            assert(objs(not_under(rest, name).push(entries.last())) =~= objs(
                not_under(rest, name),
            ).push(entries.last().1));
        }
    }
}

/// The headers named `name` are those of `headers` that have the name,
/// and there are some exactly if the name occurs.
pub proof fn lemma_with_name(headers: Seq<HeaderObj>, name: Seq<char>)
    ensures
        forall|i: int|
            0 <= i < with_name(headers, name).len() ==> (#[trigger] with_name(
                headers,
                name,
            )[i]).spec_name() == name && headers.contains(with_name(headers, name)[i]),
        (with_name(headers, name).len() > 0) == has_name(headers, name),
        forall|i: int|
            0 <= i < without_name(headers, name).len() ==> (#[trigger] without_name(
                headers,
                name,
            )[i]).spec_name() != name && headers.contains(without_name(headers, name)[i]),
        with_name(headers, name).len() + without_name(headers, name).len() == headers.len(),
    decreases headers.len(),
{
    if headers.len() > 0 {
        let rest = headers.drop_last();
        lemma_with_name(rest, name);
        let w = with_name(headers, name);
        let wo = without_name(headers, name);
        assert forall|i: int| 0 <= i < w.len() implies (#[trigger] w[i]).spec_name() == name
            && headers.contains(w[i]) by {
            if i < with_name(rest, name).len() {
                let x = with_name(rest, name)[i];
                assert(rest.contains(x));
                let k = choose|k: int| 0 <= k < rest.len() && rest[k] == x;
                assert(headers[k] == x);
            } else {
                assert(headers[headers.len() - 1] == w[i]);
            }
        }
        assert forall|i: int| 0 <= i < wo.len() implies (#[trigger] wo[i]).spec_name() != name
            && headers.contains(wo[i]) by {
            if i < without_name(rest, name).len() {
                let x = without_name(rest, name)[i];
                assert(rest.contains(x));
                let k = choose|k: int| 0 <= k < rest.len() && rest[k] == x;
                assert(headers[k] == x);
            } else {
                assert(headers[headers.len() - 1] == wo[i]);
            }
        }
        if has_name(rest, name) {
            let k = choose|k: int| 0 <= k < rest.len() && (#[trigger] rest[k]).spec_name() == name;
            assert(headers[k].spec_name() == name);
        }
        if headers.last().spec_name() == name {
            assert(headers[headers.len() - 1].spec_name() == name);
        }
        if has_name(headers, name) && !has_name(rest, name) {
            let k = choose|k: int|
                0 <= k < headers.len() && (#[trigger] headers[k]).spec_name() == name;
            if k < rest.len() {
                assert(rest[k].spec_name() == name);
            }
        }
    }
}

proof fn lemma_consistent_push(headers: Seq<HeaderObj>, h: HeaderObj)
    requires
        consistent(headers),
        fits(headers, h.spec_name(), h.spec_meta()),
    ensures
        consistent(headers.push(h)),
{
    let longer = headers.push(h);
    assert forall|i: int, j: int|
        0 <= i < longer.len() && 0 <= j < longer.len() && (#[trigger] longer[i]).spec_name() == (
        #[trigger] longer[j]).spec_name() implies longer[i].spec_meta() == longer[j].spec_meta() by {
        if i < headers.len() {
            assert(longer[i] == headers[i]);
        }
        if j < headers.len() {
            assert(longer[j] == headers[j]);
        }
    }
}

proof fn lemma_consistent_without(headers: Seq<HeaderObj>, name: Seq<char>)
    requires
        consistent(headers),
    ensures
        consistent(without_name(headers, name)),
        forall|meta: HeaderMeta| fits(without_name(headers, name), name, meta),
{
    lemma_with_name(headers, name);
    let wo = without_name(headers, name);
    assert forall|i: int, j: int|
        0 <= i < wo.len() && 0 <= j < wo.len() && (#[trigger] wo[i]).spec_name() == (
        #[trigger] wo[j]).spec_name() implies wo[i].spec_meta() == wo[j].spec_meta() by {
        assert(headers.contains(wo[i]));
        assert(headers.contains(wo[j]));
        let a = choose|a: int| 0 <= a < headers.len() && headers[a] == wo[i];
        let b = choose|b: int| 0 <= b < headers.len() && headers[b] == wo[j];
        assert(headers[a].spec_name() == headers[b].spec_name());
    }
}

proof fn lemma_consistent_add(headers: Seq<HeaderObj>, incoming: Seq<HeaderObj>)
    requires
        consistent(headers),
        consistent(incoming),
        all_fit(headers, incoming),
    ensures
        consistent(headers + incoming),
{
    let all = headers + incoming;
    assert forall|i: int, j: int|
        0 <= i < all.len() && 0 <= j < all.len() && (#[trigger] all[i]).spec_name() == (
        #[trigger] all[j]).spec_name() implies all[i].spec_meta() == all[j].spec_meta() by {
        if i < headers.len() && j < headers.len() {
            assert(all[i] == headers[i] && all[j] == headers[j]);
        } else if i >= headers.len() && j >= headers.len() {
            assert(all[i] == incoming[i - headers.len()]);
            assert(all[j] == incoming[j - headers.len()]);
        } else if i < headers.len() {
            let k = j - headers.len();
            assert(all[j] == incoming[k]);
            assert(all[i] == headers[i]);
            assert(fits(headers, incoming[k].spec_name(), incoming[k].spec_meta()));
        } else {
            let k = i - headers.len();
            assert(all[i] == incoming[k]);
            assert(all[j] == headers[j]);
            assert(fits(headers, incoming[k].spec_name(), incoming[k].spec_meta()));
        }
    }
}

/// A collection of headers in the order in which they were added.
///
/// Headers of one name agree in what comes with their kind: in whether
/// the field may occur once only, and in the rule that is checked for
/// them. A header that does not agree with those that are there is not
/// taken.
pub struct HeaderMap {
    inner_map: HeaderStore,
}

impl View for HeaderMap {
    type V = Seq<HeaderObj>;

    closed spec fn view(&self) -> Seq<HeaderObj> {
        objs(stored(self.inner_map))
    }
}

impl HeaderMap {
    #[verifier::type_invariant]
    spec fn inv(&self) -> bool {
        &&& keyed_by_name(stored(self.inner_map))
        &&& consistent(objs(stored(self.inner_map)))
    }

    /// A new, empty header map.
    pub fn new() -> (r: Self)
        ensures
            r@ == Seq::<HeaderObj>::empty(),
    {
        let inner_map = store_new();
        assert(objs(stored(inner_map)) =~= Seq::<HeaderObj>::empty());
        HeaderMap { inner_map }
    }

    /// The number of headers in the map.
    pub fn len(&self) -> (r: usize)
        ensures
            r == self@.len(),
    {
        store_len(&self.inner_map)
    }

    /// Takes the store out of the map, which is left empty.
    fn take_store(&mut self) -> (r: HeaderStore)
        ensures
            objs(stored(r)) == old(self)@,
            keyed_by_name(stored(r)),
            consistent(objs(stored(r))),
            final(self)@ == Seq::<HeaderObj>::empty(),
    {
        proof {
            use_type_invariant(&*self);
        }
        let mut taken = HeaderMap::new();
        core::mem::swap(self, &mut taken);
        let HeaderMap { inner_map } = taken;
        inner_map
    }

    /// Removes all headers.
    pub fn clear(&mut self)
        ensures
            final(self)@ == Seq::<HeaderObj>::empty(),
    {
        let mut store = self.take_store();
        store_clear(&mut store);
        assert(objs(stored(store)) =~= Seq::<HeaderObj>::empty());
        *self = HeaderMap { inner_map: store };
    }

    /// Whether the map holds a header named `name`.
    pub fn contains(&self, name: HeaderName) -> (r: bool)
        ensures
            r == has_name(self@, name@),
    {
        proof {
            use_type_invariant(self);
            lemma_under_is_with_name(stored(self.inner_map), name@);
            lemma_with_name(self@, name@);
        }
        store_contains_key(&self.inner_map, name.as_str())
    }

    /// The headers named `name`, in the order in which they were added,
    /// whatever their kind.
    pub fn get_untyped(&self, name: HeaderName) -> (r: Vec<&HeaderObj>)
        ensures
            r@.len() == with_name(self@, name@).len(),
            forall|i: int| 0 <= i < r@.len() ==> *(#[trigger] r@[i]) == with_name(self@, name@)[i],
    {
        proof {
            use_type_invariant(self);
            lemma_under_is_with_name(stored(self.inner_map), name@);
        }
        store_get(&self.inner_map, name.as_str())
    }

    /// The headers named as `kind` is, in the order in which they were
    /// added: each as it is if it is of kind `kind`, and as an error if
    /// it is of another kind of the same name.
    pub fn get(&self, kind: &HeaderKind) -> (r: Vec<Result<&HeaderObj, HeaderTypeError>>)
        ensures
            r@.len() == with_name(self@, kind.name@).len(),
            forall|i: int|
                0 <= i < r@.len() ==> match #[trigger] r@[i] {
                    Ok(h) => *h == with_name(self@, kind.name@)[i] && h.spec_kind().spec_same_as(
                        kind,
                    ),
                    Err(e) => !with_name(self@, kind.name@)[i].spec_kind().spec_same_as(kind)
                        && e.header_name == kind.name,
                },
    {
        let bodies = self.get_untyped(kind.name);
        let mut out: Vec<Result<&HeaderObj, HeaderTypeError>> = Vec::new();
        let mut i: usize = 0;
        while i < bodies.len()
            invariant
                0 <= i <= bodies.len(),
                out.len() == i,
                bodies@.len() == with_name(self@, kind.name@).len(),
                forall|k: int|
                    0 <= k < bodies@.len() ==> *(#[trigger] bodies@[k]) == with_name(
                        self@,
                        kind.name@,
                    )[k],
                forall|k: int|
                    0 <= k < i ==> match #[trigger] out@[k] {
                        Ok(h) => *h == with_name(self@, kind.name@)[k]
                            && h.spec_kind().spec_same_as(kind),
                        Err(e) => !with_name(self@, kind.name@)[k].spec_kind().spec_same_as(kind)
                            && e.header_name == kind.name,
                    },
            decreases bodies.len() - i,
        {
            let untyped = bodies[i];
            if untyped.is(kind) {
                out.push(Ok(untyped));
            } else {
                out.push(Err(HeaderTypeError::new(kind.name)));
            }
            i = i + 1;
        }
        out
    }

    /// The first header named as `kind` is, if there is one: as it is if
    /// it is of kind `kind`, and as an error if it is of another kind of
    /// the same name.
    pub fn get_single(&self, kind: &HeaderKind) -> (r: Option<Result<&HeaderObj, HeaderTypeError>>)
        ensures
            r.is_some() == has_name(self@, kind.name@),
            match r {
                Some(Ok(h)) => *h == with_name(self@, kind.name@)[0] && h.spec_kind().spec_same_as(
                    kind,
                ),
                Some(Err(e)) => !with_name(self@, kind.name@)[0].spec_kind().spec_same_as(kind)
                    && e.header_name == kind.name,
                None => true,
            },
    {
        proof {
            lemma_with_name(self@, kind.name@);
        }
        let bodies = self.get_untyped(kind.name);
        if bodies.len() == 0 {
            return None;
        }
        let untyped = bodies[0];
        if untyped.is(kind) {
            Some(Ok(untyped))
        } else {
            Some(Err(HeaderTypeError::new(kind.name)))
        }
    }

    /// All headers, in the order in which they were added. Any two of the
    /// same name agree in what comes with their kind.
    pub fn values(&self) -> (r: Vec<&HeaderObj>)
        ensures
            r@.len() == self@.len(),
            forall|i: int| 0 <= i < r@.len() ==> *(#[trigger] r@[i]) == self@[i],
            consistent(self@),
    {
        proof {
            use_type_invariant(self);
        }
        let entries = store_iter(&self.inner_map);
        let mut out: Vec<&HeaderObj> = Vec::new();
        let mut i: usize = 0;
        while i < entries.len()
            invariant
                0 <= i <= entries.len(),
                out.len() == i,
                entries@.len() == stored(self.inner_map).len(),
                forall|k: int|
                    0 <= k < entries@.len() ==> *(#[trigger] entries@[k]).1 == stored(
                        self.inner_map,
                    )[k].1,
                forall|k: int| 0 <= k < i ==> *(#[trigger] out@[k]) == self@[k],
            decreases entries.len() - i,
        {
            out.push(entries[i].1);
            i = i + 1;
        }
        out
    }

    /// All headers with their names, in the order in which they were
    /// added.
    pub fn iter(&self) -> (r: Vec<(HeaderName, &HeaderObj)>)
        ensures
            r@.len() == self@.len(),
            forall|i: int|
                0 <= i < r@.len() ==> *(#[trigger] r@[i]).1 == self@[i] && r@[i].0
                    == self@[i].spec_kind().name,
    {
        let values = self.values();
        let mut out: Vec<(HeaderName, &HeaderObj)> = Vec::new();
        let mut i: usize = 0;
        while i < values.len()
            invariant
                0 <= i <= values.len(),
                out.len() == i,
                values@.len() == self@.len(),
                forall|k: int| 0 <= k < values@.len() ==> *(#[trigger] values@[k]) == self@[k],
                forall|k: int|
                    0 <= k < i ==> *(#[trigger] out@[k]).1 == self@[k] && out@[k].0
                        == self@[k].spec_kind().name,
            decreases values.len() - i,
        {
            out.push((values[i].name(), values[i]));
            i = i + 1;
        }
        out
    }

    /// Gives all headers up, with their names, in the order in which they
    /// were added.
    pub fn into_vec(self) -> (r: Vec<(HeaderName, HeaderObj)>)
        ensures
            r@.len() == self@.len(),
            forall|i: int|
                0 <= i < r@.len() ==> (#[trigger] r@[i]).1 == self@[i] && r@[i].0
                    == self@[i].spec_kind().name,
    {
        let HeaderMap { inner_map } = self;
        let entries = store_into_iter(inner_map);
        let mut out: Vec<(HeaderName, HeaderObj)> = Vec::new();
        for entry in it: entries
            invariant
                out.len() == it.index(),
                it.seq().len() == stored(inner_map).len(),
                forall|k: int|
                    0 <= k < it.seq().len() ==> (#[trigger] it.seq()[k]).1 == stored(inner_map)[k].1,
                forall|k: int|
                    0 <= k < out.len() ==> (#[trigger] out@[k]).1 == stored(inner_map)[k].1
                        && out@[k].0 == stored(inner_map)[k].1.spec_kind().name,
        {
            let (_key, header) = entry;
            out.push((header.name(), header));
        }
        out
    }

    /// The map as it shows itself for debugging: its headers in order,
    /// each with its name before the text in which its body shows itself.
    pub fn debug_string(&self) -> (r: String)
        ensures
            r@ == debug_form(self@, body_texts(self@)),
    {
        let entries = self.iter();
        let mut out = String::from_str("HeaderMap { ");
        let mut i: usize = 0;
        proof {
            assert(self@.take(0) =~= Seq::<HeaderObj>::empty());
            assert(body_texts(self@.take(0)) =~= Seq::<Seq<char>>::empty());
        }
        while i < entries.len()
            invariant
                0 <= i <= entries.len(),
                entries@.len() == self@.len(),
                forall|k: int|
                    0 <= k < entries@.len() ==> *(#[trigger] entries@[k]).1 == self@[k]
                        && entries@[k].0 == self@[k].spec_kind().name,
                out@ == "HeaderMap { "@ + debug_entries(
                    self@.take(i as int),
                    body_texts(self@.take(i as int)),
                ),
            decreases entries.len() - i,
        {
            let body = entries[i].1.debug_string();
            proof {
                let before = self@.take(i as int);
                let upto = self@.take(i as int + 1);
                assert(upto.drop_last() =~= before);
                assert(upto.last() == self@[i as int]);
                assert(body_texts(upto).drop_last() =~= body_texts(before));
                assert(body_texts(upto).last() == body@);
                assert(("HeaderMap { "@ + debug_entries(before, body_texts(before)))
                    + self@[i as int].spec_name() + ": "@ + body@ + ","@ =~= "HeaderMap { "@
                    + debug_entries(upto, body_texts(upto)));
            }
            out.append(entries[i].0.as_str());
            out.append(": ");
            out.append(body.as_str());
            out.append(",");
            i = i + 1;
        }
        assert(self@.take(i as int) =~= self@);
        out.append(" }");
        out
    }

    /// Whether a header of name `name` with `meta` goes with the headers
    /// in the map.
    pub fn accepts(&self, name: HeaderName, meta: &HeaderMeta) -> (r: bool)
        ensures
            r == fits(self@, name@, *meta),
    {
        let present = self.get_untyped(name);
        let mut i: usize = 0;
        while i < present.len()
            invariant
                0 <= i <= present.len(),
                present@.len() == with_name(self@, name@).len(),
                forall|k: int|
                    0 <= k < present@.len() ==> *(#[trigger] present@[k]) == with_name(
                        self@,
                        name@,
                    )[k],
                forall|k: int| 0 <= k < i ==> (#[trigger] present@[k]).spec_meta() == *meta,
            decreases present.len() - i,
        {
            if !meta_eq(&present[i].kind().meta, meta) {
                proof {
                    lemma_with_name(self@, name@);
                    let x = with_name(self@, name@)[i as int];
                    assert(self@.contains(x));
                    let k = choose|k: int| 0 <= k < self@.len() && self@[k] == x;
                    assert(self@[k].spec_name() == name@);
                }
                return false;
            }
            i = i + 1;
        }
        proof {
            assert forall|k: int|
                0 <= k < self@.len() && (#[trigger] self@[k]).spec_name() == name@ implies self@[k].spec_meta()
                == *meta by {
                lemma_in_with_name(self@, name@, k);
                let x = self@[k];
                assert(with_name(self@, name@).contains(x));
                let p = choose|p: int|
                    0 <= p < with_name(self@, name@).len() && with_name(self@, name@)[p] == x;
                assert(*present@[p] == x);
            }
        }
        true
    }

    /// Adds `header` behind all others, if it goes with the headers of
    /// its name that are there. If not, the map is left as it is.
    pub fn add(&mut self, header: HeaderObj) -> (r: Result<(), HeaderTypeError>)
        ensures
            match r {
                Ok(_) => fits(old(self)@, header.spec_name(), header.spec_meta()) && final(self)@
                    == old(self)@.push(header),
                Err(e) => !fits(old(self)@, header.spec_name(), header.spec_meta()) && final(self)@ == old(self)@ && e.header_name == header.spec_kind().name,
            },
    {
        let name = header.name();
        if !self.accepts(name, &header.kind().meta) {
            return Err(HeaderTypeError::new(name));
        }
        let mut store = self.take_store();
        proof {
            lemma_consistent_push(objs(stored(store)), header);
            assert(objs(stored(store).push((name@, header))) =~= objs(stored(store)).push(header));
        }
        store_add(&mut store, name.as_str(), header);
        *self = HeaderMap { inner_map: store };
        Ok(())
    }

    /// Adds a header of kind `kind` with `body` behind all others. The
    /// body must be of the component kind that `kind` asks for, and the
    /// kind must go with the headers of its name that are there. If not,
    /// the map is left as it is.
    pub fn insert(&mut self, kind: HeaderKind, body: Component) -> (r: Result<(), HeaderTypeError>)
        ensures
            match r {
                Ok(_) => body.spec_kind() == kind.component && fits(old(self)@, kind.name@, kind.meta)
                    && final(self)@.len() == old(self)@.len() + 1 && final(self)@.drop_last()
                    == old(self)@ && final(self)@.last().spec_kind() == kind && final(self)@.last().spec_body() == body,
                Err(e) => !(body.spec_kind() == kind.component && fits(
                    old(self)@,
                    kind.name@,
                    kind.meta,
                )) && final(self)@ == old(self)@ && e.header_name == kind.name,
            },
    {
        let header = HeaderObj::new(kind, body)?;
        let res = self.add(header);
        proof {
            if res.is_ok() {
                assert(old(self)@.push(header).drop_last() =~= old(self)@);
            }
        }
        res
    }

    /// Makes `header` the only one of its name: takes out and hands back
    /// the headers of its name that are there, and adds it behind all
    /// others.
    pub fn set(&mut self, header: HeaderObj) -> (r: Vec<HeaderObj>)
        ensures
            final(self)@ == without_name(old(self)@, header.spec_name()).push(header),
            r@ == with_name(old(self)@, header.spec_name()),
    {
        let name = header.name();
        let mut store = self.take_store();
        proof {
            lemma_under_is_with_name(stored(store), name@);
            lemma_consistent_without(objs(stored(store)), name@);
            lemma_consistent_push(without_name(objs(stored(store)), name@), header);
            assert(objs(not_under(stored(store), name@).push((name@, header))) =~= objs(
                not_under(stored(store), name@),
            ).push(header));
        }
        let bodies = store_set(&mut store, name.as_str(), header);
        *self = HeaderMap { inner_map: store };
        bodies
    }

    /// Adds all headers of `other`, in their order, behind the headers of
    /// this map, if every one of them goes with the headers of its name
    /// in this map. If one does not, this map is left exactly as it is.
    pub fn combine(&mut self, other: HeaderMap) -> (r: Result<(), HeaderTypeError>)
        ensures
            match r {
                Ok(_) => all_fit(old(self)@, other@) && final(self)@ == old(self)@ + other@,
                Err(e) => !all_fit(old(self)@, other@) && final(self)@ == old(self)@ && exists|
                    k: int,
                |
                    0 <= k < other@.len() && e.header_name == (#[trigger] other@[k]).spec_kind().name
                        && !fits(old(self)@, other@[k].spec_name(), other@[k].spec_meta())
                        && all_fit(old(self)@, other@.take(k)),
            },
    {
        proof {
            use_type_invariant(&other);
        }
        let incoming = other.values();
        let mut k: usize = 0;
        while k < incoming.len()
            invariant
                0 <= k <= incoming.len(),
                *self == *old(self),
                incoming@.len() == other@.len(),
                forall|i: int| 0 <= i < incoming@.len() ==> *(#[trigger] incoming@[i]) == other@[i],
                all_fit(self@, other@.take(k as int)),
            decreases incoming.len() - k,
        {
            let header = incoming[k];
            if !self.accepts(header.name(), &header.kind().meta) {
                return Err(HeaderTypeError::new(header.name()));
            }
            proof {
                let upto = other@.take(k as int + 1);
                assert forall|i: int| 0 <= i < upto.len() implies fits(
                    self@,
                    (#[trigger] upto[i]).spec_name(),
                    upto[i].spec_meta(),
                ) by {
                    if i < k {
                        assert(other@.take(k as int)[i] == upto[i]);
                    }
                }
            }
            k = k + 1;
        }
        assert(other@.take(k as int) =~= other@);
        let mut store = self.take_store();
        let HeaderMap { inner_map: other_store } = other;
        proof {
            lemma_consistent_add(objs(stored(store)), objs(stored(other_store)));
            assert(objs(stored(store) + stored(other_store)) =~= objs(stored(store)) + objs(
                stored(other_store),
            ));
            assert(keyed_by_name(stored(store) + stored(other_store))) by {
                let all = stored(store) + stored(other_store);
                assert forall|i: int| 0 <= i < all.len() implies (#[trigger] all[i]).0
                    == all[i].1.spec_name() by {
                    if i < stored(store).len() {
                        assert(all[i] == stored(store)[i]);
                    } else {
                        assert(all[i] == stored(other_store)[i - stored(store).len()]);
                    }
                }
            }
        }
        store_extend(&mut store, other_store);
        *self = HeaderMap { inner_map: store };
        Ok(())
    }

    /// Removes all headers named `name`, and says whether there was one.
    pub fn remove_by_name(&mut self, name: HeaderName) -> (r: bool)
        ensures
            final(self)@ == without_name(old(self)@, name@),
            r == has_name(old(self)@, name@),
    {
        let mut store = self.take_store();
        proof {
            lemma_under_is_with_name(stored(store), name@);
            lemma_consistent_without(objs(stored(store)), name@);
            lemma_with_name(objs(stored(store)), name@);
        }
        let removed = store_remove_all(&mut store, name.as_str());
        *self = HeaderMap { inner_map: store };
        removed
    }
}

/// Once a header is in a map, no header of the same name that differs
/// from it in what comes with its kind goes with the map: not in whether
/// the field may occur once only, and not in the rule that is checked for
/// it.
pub proof fn law_headers_of_a_name_agree(
    headers: Seq<HeaderObj>,
    first: HeaderObj,
    name: Seq<char>,
    meta: HeaderMeta,
)
    requires
        first.spec_name() == name,
        first.spec_meta() != meta,
    ensures
        !fits(headers.push(first), name, meta),
        forall|more: Seq<HeaderObj>| !fits(headers.push(first) + more, name, meta),
{
    let with_first = headers.push(first);
    assert(with_first[headers.len() as int] == first);
    assert forall|more: Seq<HeaderObj>| !fits(headers.push(first) + more, name, meta) by {
        assert((with_first + more)[headers.len() as int] == first);
    }
}

/// A header with the name is among the headers of that name.
pub proof fn lemma_in_with_name(headers: Seq<HeaderObj>, name: Seq<char>, k: int)
    requires
        0 <= k < headers.len(),
        headers[k].spec_name() == name,
    ensures
        with_name(headers, name).contains(headers[k]),
    decreases headers.len(),
{
    let rest = headers.drop_last();
    if k == headers.len() - 1 {
        assert(headers.last() == headers[k]);
        let w = with_name(headers, name);
        assert(w[w.len() - 1] == headers[k]);
    } else {
        lemma_in_with_name(rest, name, k);
        let x = headers[k];
        assert(rest[k] == x);
        let p = choose|p: int| 0 <= p < with_name(rest, name).len() && with_name(rest, name)[p] == x;
        if headers.last().spec_name() == name {
            assert(with_name(headers, name)[p] == x);
        }
    }
}

impl Clone for HeaderMap {
    /// A map of copies of the headers, in the same order.
    fn clone(&self) -> (r: Self)
        ensures
            r@.len() == self@.len(),
            forall|i: int|
                0 <= i < self@.len() ==> same_header(#[trigger] r@[i], self@[i]) && encodes_alike(
                    r@[i],
                    self@[i],
                ) && r@[i].spec_body().spec_mailbox_count()
                    == self@[i].spec_body().spec_mailbox_count(),
    {
        let headers = self.values();
        let mut copy = HeaderMap::new();
        let mut i: usize = 0;
        while i < headers.len()
            invariant
                0 <= i <= headers.len(),
                headers@.len() == self@.len(),
                forall|k: int| 0 <= k < headers@.len() ==> *(#[trigger] headers@[k]) == self@[k],
                consistent(self@),
                copy@.len() == i,
                forall|k: int|
                    0 <= k < i ==> same_header(#[trigger] copy@[k], self@[k]) && encodes_alike(
                        copy@[k],
                        self@[k],
                    ) && copy@[k].spec_body().spec_mailbox_count()
                        == self@[k].spec_body().spec_mailbox_count(),
            decreases headers.len() - i,
        {
            let header = headers[i].clone();
            proof {
                assert forall|k: int|
                    0 <= k < copy@.len() && (#[trigger] copy@[k]).spec_name()
                        == header.spec_name() implies copy@[k].spec_meta() == header.spec_meta() by {
                    assert(self@[k].spec_name() == self@[i as int].spec_name());
                }
            }
            match copy.add(header) {
                Ok(_) => {},
                Err(_) => {
                    assert(false);
                },
            }
            i = i + 1;
        }
        copy
    }
}

impl Default for HeaderMap {
    fn default() -> (r: Self)
        ensures
            r@ == Seq::<HeaderObj>::empty(),
    {
        HeaderMap::new()
    }
}

} // verus!
