//! JSON-shaped status values and merge-patch semantics.
//!
//! A subsystem's last-known state is a tree of named fields.  The exec type
//! [`JsonValue`] stores numbers as their decimal text so that the tree stays
//! within what the verifier can reason about; the surrounding process converts
//! to and from its wire representation.  The mathematical model is [`Jv`],
//! where objects are association sequences of (key, value) pairs.

use vstd::prelude::*;

verus! {

/// Mathematical model of a JSON-shaped document.
///
/// An object is a sequence of (key, value) pairs; well-formed objects
/// ([`jv_wf`]) carry each key at most once, so the sequence describes a map
/// while still recording the order in which fields appear.
pub enum Jv {
    Null,
    Bool(bool),
    Num(Seq<char>),
    Str(Seq<char>),
    Arr(Seq<Jv>),
    Obj(Seq<(Seq<char>, Jv)>),
}

/// Whether the association sequence `fs` binds the key `k`.
pub open spec fn obj_has_key(fs: Seq<(Seq<char>, Jv)>, k: Seq<char>) -> bool
    decreases fs.len(),
{
    fs.len() > 0 && (fs[0].0 == k || obj_has_key(fs.subrange(1, fs.len() as int), k))
}

/// `obj_has_key` asks whether some pair carries the key.
pub proof fn lemma_obj_has_key_exists(fs: Seq<(Seq<char>, Jv)>, k: Seq<char>)
    ensures
        obj_has_key(fs, k) <==> exists|i: int| 0 <= i < fs.len() && fs[i].0 == k,
    decreases fs.len(),
{
    if fs.len() > 0 {
        let rest = fs.subrange(1, fs.len() as int);
        lemma_obj_has_key_exists(rest, k);
        if obj_has_key(fs, k) && fs[0].0 != k {
            let i = choose|i: int| 0 <= i < rest.len() && rest[i].0 == k;
            assert(fs[i + 1].0 == k);
        }
        if exists|i: int| 0 <= i < fs.len() && fs[i].0 == k {
            let i = choose|i: int| 0 <= i < fs.len() && fs[i].0 == k;
            if i > 0 {
                assert(rest[i - 1].0 == k);
            }
        }
    }
}

/// The value bound to `k` by the first matching pair of `fs`.
pub open spec fn obj_value(fs: Seq<(Seq<char>, Jv)>, k: Seq<char>) -> Jv
    recommends
        obj_has_key(fs, k),
    decreases fs.len(),
{
    if fs.len() == 0 {
        Jv::Null
    } else if fs[0].0 == k {
        fs[0].1
    } else {
        obj_value(fs.subrange(1, fs.len() as int), k)
    }
}

/// No key occurs twice in `fs`.
pub open spec fn obj_keys_unique(fs: Seq<(Seq<char>, Jv)>) -> bool {
    forall|i: int, j: int| 0 <= i < j < fs.len() ==> fs[i].0 != fs[j].0
}

/// Every object in the tree binds each key at most once.
pub open spec fn jv_wf(v: Jv) -> bool
    decreases v,
{
    match v {
        Jv::Arr(items) => forall|i: int| 0 <= i < items.len() ==> jv_wf(#[trigger] items[i]),
        Jv::Obj(fs) => obj_keys_unique(fs) && forall|i: int|
            0 <= i < fs.len() ==> jv_wf(#[trigger] fs[i].1),
        _ => true,
    }
}

/// `fs` with every pair bound to `k` removed, other pairs and their order kept.
pub open spec fn obj_remove(fs: Seq<(Seq<char>, Jv)>, k: Seq<char>) -> Seq<(Seq<char>, Jv)>
    decreases fs.len(),
{
    if fs.len() == 0 {
        Seq::empty()
    } else if fs[0].0 == k {
        obj_remove(fs.subrange(1, fs.len() as int), k)
    } else {
        seq![fs[0]] + obj_remove(fs.subrange(1, fs.len() as int), k)
    }
}

/// `fs` with the value of every pair bound to `k` replaced by `v`, in place.
pub open spec fn obj_update(fs: Seq<(Seq<char>, Jv)>, k: Seq<char>, v: Jv) -> Seq<
    (Seq<char>, Jv),
>
    decreases fs.len(),
{
    if fs.len() == 0 {
        Seq::empty()
    } else {
        let head = if fs[0].0 == k {
            (k, v)
        } else {
            fs[0]
        };
        seq![head] + obj_update(fs.subrange(1, fs.len() as int), k, v)
    }
}

/// Merge-patch: a non-object patch replaces the target wholesale; an object
/// patch is applied field by field, where a `Null` patch field deletes the
/// target field and any other patch field is merged over it (recursively, so
/// nested objects are patched rather than replaced).
pub open spec fn spec_merge(t: Jv, p: Jv) -> Jv
    decreases p,
{
    match p {
        Jv::Obj(pf) => {
            let tf = if t is Obj {
                t->Obj_0
            } else {
                Seq::empty()
            };
            Jv::Obj(spec_merge_fields(tf, pf))
        },
        _ => p,
    }
}

/// One patch field applied to the fields of the target object.
pub open spec fn spec_apply_field(
    tf: Seq<(Seq<char>, Jv)>,
    field: (Seq<char>, Jv),
) -> Seq<(Seq<char>, Jv)>
    decreases field,
{
    if field.1 is Null {
        obj_remove(tf, field.0)
    } else {
        let merged = spec_merge(
            if obj_has_key(tf, field.0) {
                obj_value(tf, field.0)
            } else {
                Jv::Null
            },
            field.1,
        );
        if obj_has_key(tf, field.0) {
            obj_update(tf, field.0, merged)
        } else {
            tf.push((field.0, merged))
        }
    }
}

/// The patch fields applied to the target fields, first to last.
pub open spec fn spec_merge_fields(
    tf: Seq<(Seq<char>, Jv)>,
    pf: Seq<(Seq<char>, Jv)>,
) -> Seq<(Seq<char>, Jv)>
    decreases pf,
{
    if pf.len() == 0 {
        tf
    } else {
        spec_merge_fields(spec_apply_field(tf, pf[0]), pf.subrange(1, pf.len() as int))
    }
}

/// A JSON-shaped value as the library stores it.
///
/// Numbers are kept as their decimal text: the merge logic never looks inside
/// a number, and the text form round-trips exactly through the wire encoding.
#[derive(Debug, PartialEq, Eq)]
pub enum JsonValue {
    Null,
    Bool(bool),
    Num(String),
    Str(String),
    Arr(Vec<JsonValue>),
    Obj(Vec<(String, JsonValue)>),
}

/// The model of a stored value.
pub open spec fn view_value(v: JsonValue) -> Jv
    decreases v,
{
    match v {
        JsonValue::Null => Jv::Null,
        JsonValue::Bool(b) => Jv::Bool(b),
        JsonValue::Num(s) => Jv::Num(s@),
        JsonValue::Str(s) => Jv::Str(s@),
        JsonValue::Arr(items) => Jv::Arr(view_items(items@)),
        JsonValue::Obj(fields) => Jv::Obj(view_fields(fields@)),
    }
}

/// The models of the elements of an array, in order.
pub open spec fn view_items(s: Seq<JsonValue>) -> Seq<Jv>
    decreases s,
{
    if s.len() == 0 {
        Seq::empty()
    } else {
        seq![view_value(s[0])] + view_items(s.subrange(1, s.len() as int))
    }
}

/// The models of the fields of an object, in order.
pub open spec fn view_fields(s: Seq<(String, JsonValue)>) -> Seq<(Seq<char>, Jv)>
    decreases s,
{
    if s.len() == 0 {
        Seq::empty()
    } else {
        seq![(s[0].0@, view_value(s[0].1))] + view_fields(s.subrange(1, s.len() as int))
    }
}

// ---------------------------------------------------------------------------
// Pointwise facts about the object operations.
// ---------------------------------------------------------------------------

/// What `obj_remove` does, key by key.
proof fn lemma_obj_remove(fs: Seq<(Seq<char>, Jv)>, k: Seq<char>)
    ensures
        !obj_has_key(obj_remove(fs, k), k),
        forall|k2: Seq<char>|
            k2 != k ==> #[trigger] obj_has_key(obj_remove(fs, k), k2) == obj_has_key(fs, k2),
        forall|k2: Seq<char>|
            k2 != k && obj_has_key(fs, k2) ==> #[trigger] obj_value(obj_remove(fs, k), k2)
                == obj_value(fs, k2),
        obj_keys_unique(fs) ==> obj_keys_unique(obj_remove(fs, k)),
        forall|i: int|
            0 <= i < obj_remove(fs, k).len() ==> exists|j: int|
                0 <= j < fs.len() && #[trigger] obj_remove(fs, k)[i] == fs[j],
    decreases fs.len(),
{
    if fs.len() > 0 {
        let rest = fs.subrange(1, fs.len() as int);
        lemma_obj_remove(rest, k);
        if fs[0].0 != k {
            assert(obj_remove(fs, k)[0] == fs[0]);
            assert(obj_remove(fs, k).subrange(1, obj_remove(fs, k).len() as int) =~= obj_remove(
                rest,
                k,
            ));
        }
        assert forall|k2: Seq<char>| k2 != k implies #[trigger] obj_has_key(obj_remove(fs, k), k2)
            == obj_has_key(fs, k2) by {
            assert(obj_has_key(fs, k2) == (fs[0].0 == k2 || obj_has_key(rest, k2)));
            if fs[0].0 == k {
                assert(obj_remove(fs, k) == obj_remove(rest, k));
            } else {
                let r = obj_remove(fs, k);
                assert(obj_has_key(r, k2) == (r[0].0 == k2 || obj_has_key(
                    r.subrange(1, r.len() as int),
                    k2,
                )));
            }
        }
        assert forall|k2: Seq<char>| k2 != k && obj_has_key(fs, k2) implies #[trigger] obj_value(
            obj_remove(fs, k),
            k2,
        ) == obj_value(fs, k2) by {
            if fs[0].0 == k {
                assert(obj_remove(fs, k) == obj_remove(rest, k));
                assert(obj_value(fs, k2) == obj_value(rest, k2));
            } else {
                let r = obj_remove(fs, k);
                assert(obj_value(r, k2) == if r[0].0 == k2 {
                    r[0].1
                } else {
                    obj_value(r.subrange(1, r.len() as int), k2)
                });
            }
        }
        if obj_keys_unique(fs) {
            assert forall|i: int, j: int| 0 <= i < j < rest.len() implies rest[i].0 != rest[j].0 by {
                assert(fs[i + 1].0 == rest[i].0 && fs[j + 1].0 == rest[j].0);
            }
        }
        assert forall|i: int| 0 <= i < obj_remove(fs, k).len() implies exists|j: int|
            0 <= j < fs.len() && #[trigger] obj_remove(fs, k)[i] == fs[j] by {
            if fs[0].0 != k && i == 0 {
                assert(obj_remove(fs, k)[0] == fs[0]);
            } else {
                let i2: int = if fs[0].0 == k {
                    i
                } else {
                    i - 1
                };
                let j = choose|j: int| 0 <= j < rest.len() && obj_remove(rest, k)[i2] == rest[j];
                assert(obj_remove(fs, k)[i] == fs[j + 1]);
            }
        }
    }
}

/// What `obj_update` does, key by key.
proof fn lemma_obj_update(fs: Seq<(Seq<char>, Jv)>, k: Seq<char>, v: Jv)
    ensures
        obj_update(fs, k, v).len() == fs.len(),
        forall|i: int|
            0 <= i < fs.len() ==> #[trigger] obj_update(fs, k, v)[i] == (if fs[i].0 == k {
                (k, v)
            } else {
                fs[i]
            }),
        forall|k2: Seq<char>| #[trigger]
            obj_has_key(obj_update(fs, k, v), k2) == obj_has_key(fs, k2),
        obj_has_key(fs, k) ==> obj_value(obj_update(fs, k, v), k) == v,
        forall|k2: Seq<char>|
            k2 != k && obj_has_key(fs, k2) ==> #[trigger] obj_value(obj_update(fs, k, v), k2)
                == obj_value(fs, k2),
        obj_keys_unique(fs) ==> obj_keys_unique(obj_update(fs, k, v)),
    decreases fs.len(),
{
    if fs.len() > 0 {
        let rest = fs.subrange(1, fs.len() as int);
        lemma_obj_update(rest, k, v);
        let u = obj_update(fs, k, v);
        assert(u.subrange(1, fs.len() as int) =~= obj_update(rest, k, v));
        assert(u[0] == if fs[0].0 == k {
            (k, v)
        } else {
            fs[0]
        });
        assert forall|k2: Seq<char>| #[trigger] obj_has_key(u, k2) == obj_has_key(fs, k2) by {
            assert(obj_has_key(u, k2) == (u[0].0 == k2 || obj_has_key(
                u.subrange(1, u.len() as int),
                k2,
            )));
            assert(obj_has_key(fs, k2) == (fs[0].0 == k2 || obj_has_key(rest, k2)));
        }
        assert forall|k2: Seq<char>|
            obj_has_key(fs, k2) && (k2 == k || k2 != k) implies #[trigger] obj_value(u, k2) == (
        if k2 == k {
            v
        } else {
            obj_value(fs, k2)
        }) by {
            assert(obj_value(u, k2) == if u[0].0 == k2 {
                u[0].1
            } else {
                obj_value(u.subrange(1, u.len() as int), k2)
            });
            assert(obj_value(fs, k2) == if fs[0].0 == k2 {
                fs[0].1
            } else {
                obj_value(rest, k2)
            });
        }
        if obj_keys_unique(fs) {
            assert forall|i: int, j: int| 0 <= i < j < rest.len() implies rest[i].0 != rest[j].0 by {
                assert(fs[i + 1].0 == rest[i].0 && fs[j + 1].0 == rest[j].0);
            }
            let u = obj_update(fs, k, v);
            assert forall|i: int, j: int| 0 <= i < j < u.len() implies u[i].0 != u[j].0 by {
                assert(u[i].0 == fs[i].0 && u[j].0 == fs[j].0);
            }
        }
    }
}

/// The value bound to `k`, or `Null` where `k` is unbound.
pub open spec fn obj_get_or_null(fs: Seq<(Seq<char>, Jv)>, k: Seq<char>) -> Jv {
    if obj_has_key(fs, k) {
        obj_value(fs, k)
    } else {
        Jv::Null
    }
}

/// What appending one pair does, key by key.
proof fn lemma_obj_push(fs: Seq<(Seq<char>, Jv)>, x: (Seq<char>, Jv))
    ensures
        forall|k2: Seq<char>| #[trigger]
            obj_has_key(fs.push(x), k2) == (obj_has_key(fs, k2) || x.0 == k2),
        forall|k2: Seq<char>|
            obj_has_key(fs, k2) ==> #[trigger] obj_value(fs.push(x), k2) == obj_value(fs, k2),
        !obj_has_key(fs, x.0) ==> obj_value(fs.push(x), x.0) == x.1,
        obj_keys_unique(fs) && !obj_has_key(fs, x.0) ==> obj_keys_unique(fs.push(x)),
    decreases fs.len(),
{
    lemma_obj_has_key_exists(fs, x.0);
    let p = fs.push(x);
    if fs.len() == 0 {
        assert(p[0] == x);
        assert(p.subrange(1, p.len() as int) =~= Seq::<(Seq<char>, Jv)>::empty());
        assert forall|k2: Seq<char>| #[trigger] obj_has_key(p, k2) == (obj_has_key(fs, k2) || x.0
            == k2) by {
            assert(obj_has_key(p, k2) == (p[0].0 == k2 || obj_has_key(
                p.subrange(1, p.len() as int),
                k2,
            )));
        }
        assert(obj_value(p, x.0) == x.1);
    } else {
        let rest = fs.subrange(1, fs.len() as int);
        lemma_obj_push(rest, x);
        assert(p[0] == fs[0]);
        assert(p.subrange(1, p.len() as int) =~= rest.push(x));
        assert forall|k2: Seq<char>| #[trigger] obj_has_key(p, k2) == (obj_has_key(fs, k2) || x.0
            == k2) by {
            assert(obj_has_key(p, k2) == (p[0].0 == k2 || obj_has_key(
                p.subrange(1, p.len() as int),
                k2,
            )));
            assert(obj_has_key(fs, k2) == (fs[0].0 == k2 || obj_has_key(rest, k2)));
        }
        assert forall|k2: Seq<char>| obj_has_key(fs, k2) implies #[trigger] obj_value(p, k2)
            == obj_value(fs, k2) by {
            assert(obj_value(p, k2) == if p[0].0 == k2 {
                p[0].1
            } else {
                obj_value(p.subrange(1, p.len() as int), k2)
            });
            assert(obj_value(fs, k2) == if fs[0].0 == k2 {
                fs[0].1
            } else {
                obj_value(rest, k2)
            });
        }
        if !obj_has_key(fs, x.0) {
            assert(obj_value(p, x.0) == if p[0].0 == x.0 {
                p[0].1
            } else {
                obj_value(p.subrange(1, p.len() as int), x.0)
            });
        }
        if obj_keys_unique(fs) && !obj_has_key(fs, x.0) {
            lemma_obj_has_key_exists(p, x.0);
            assert forall|i: int, j: int| 0 <= i < j < p.len() implies p[i].0 != p[j].0 by {
                lemma_obj_has_key_exists(fs, fs[i].0);
            }
        }
    }
}

/// A bound value is some entry of the sequence.
pub proof fn lemma_obj_value_entry(fs: Seq<(Seq<char>, Jv)>, k: Seq<char>)
    requires
        obj_has_key(fs, k),
    ensures
        exists|i: int|
            0 <= i < fs.len() && fs[i].0 == k && #[trigger] fs[i].1 == obj_value(fs, k),
    decreases fs.len(),
{
    let rest = fs.subrange(1, fs.len() as int);
    if fs[0].0 != k {
        lemma_obj_value_entry(rest, k);
        let i = choose|i: int|
            0 <= i < rest.len() && rest[i].0 == k && #[trigger] rest[i].1 == obj_value(rest, k);
        assert(fs[i + 1].0 == k && fs[i + 1].1 == obj_value(fs, k));
    }
}

// ---------------------------------------------------------------------------
// What merging does, key by key.
// ---------------------------------------------------------------------------

/// Merging well-formed values yields a well-formed value.
pub proof fn lemma_merge_wf(t: Jv, p: Jv)
    requires
        jv_wf(t),
        jv_wf(p),
    ensures
        jv_wf(spec_merge(t, p)),
    decreases p,
{
    if p is Obj {
        let pf = p->Obj_0;
        let tf = if t is Obj {
            t->Obj_0
        } else {
            Seq::empty()
        };
        assert(jv_wf(Jv::Obj(pf)));
        assert(jv_wf(Jv::Obj(tf)));
        lemma_merge_fields(tf, pf);
    }
}

/// Field-by-field reading of an object merge: a `Null` patch field deletes
/// the key, any other patch field lands as the recursive merge over what the
/// target held, and keys the patch does not mention keep their target binding.
pub proof fn lemma_merge_fields(tf: Seq<(Seq<char>, Jv)>, pf: Seq<(Seq<char>, Jv)>)
    requires
        jv_wf(Jv::Obj(tf)),
        jv_wf(Jv::Obj(pf)),
    ensures
        jv_wf(Jv::Obj(spec_merge_fields(tf, pf))),
        forall|k: Seq<char>|
            obj_has_key(pf, k) && obj_value(pf, k) is Null ==> !#[trigger] obj_has_key(
                spec_merge_fields(tf, pf),
                k,
            ),
        forall|k: Seq<char>|
            obj_has_key(pf, k) && !(obj_value(pf, k) is Null) ==> #[trigger] obj_has_key(
                spec_merge_fields(tf, pf),
                k,
            ) && obj_value(spec_merge_fields(tf, pf), k) == spec_merge(
                obj_get_or_null(tf, k),
                obj_value(pf, k),
            ),
        forall|k: Seq<char>|
            !obj_has_key(pf, k) ==> #[trigger] obj_has_key(spec_merge_fields(tf, pf), k)
                == obj_has_key(tf, k) && (obj_has_key(tf, k) ==> obj_value(
                spec_merge_fields(tf, pf),
                k,
            ) == obj_value(tf, k)),
    decreases pf,
{
    if pf.len() == 0 {
    } else {
        let head = pf[0];
        let rest = pf.subrange(1, pf.len() as int);
        let tf1 = spec_apply_field(tf, head);
        let r = spec_merge_fields(tf, pf);
        assert(r == spec_merge_fields(tf1, rest));
        assert(obj_value(pf, head.0) == head.1);
        assert forall|i: int, j: int| 0 <= i < j < rest.len() implies rest[i].0 != rest[j].0 by {
            assert(pf[i + 1].0 == rest[i].0 && pf[j + 1].0 == rest[j].0);
        }
        assert forall|i: int| 0 <= i < rest.len() implies jv_wf(#[trigger] rest[i].1) by {
            assert(rest[i].1 == pf[i + 1].1);
        }
        assert(jv_wf(Jv::Obj(rest)));
        if obj_has_key(rest, head.0) {
            lemma_obj_has_key_exists(rest, head.0);
            let i = choose|i: int| 0 <= i < rest.len() && rest[i].0 == head.0;
            assert(pf[i + 1].0 == pf[0].0);
            assert(false);
        }
        assert forall|k: Seq<char>| k != head.0 implies #[trigger] obj_has_key(pf, k)
            == obj_has_key(rest, k) && (obj_has_key(rest, k) ==> obj_value(pf, k) == obj_value(
            rest,
            k,
        )) by {
            assert(obj_has_key(pf, k) == (pf[0].0 == k || obj_has_key(rest, k)));
        }
        if head.1 is Null {
            lemma_obj_remove(tf, head.0);
            assert(tf1 == obj_remove(tf, head.0));
            assert forall|i: int| 0 <= i < tf1.len() implies jv_wf(#[trigger] tf1[i].1) by {
                let j = choose|j: int| 0 <= j < tf.len() && tf1[i] == tf[j];
                assert(jv_wf(tf[j].1));
            }
            assert(jv_wf(Jv::Obj(tf1)));
            lemma_merge_fields(tf1, rest);
        } else {
            let cur = obj_get_or_null(tf, head.0);
            if obj_has_key(tf, head.0) {
                lemma_obj_value_entry(tf, head.0);
            }
            assert(jv_wf(cur));
            lemma_merge_wf(cur, head.1);
            let merged = spec_merge(cur, head.1);
            if obj_has_key(tf, head.0) {
                lemma_obj_update(tf, head.0, merged);
                assert(tf1 == obj_update(tf, head.0, merged));
                assert forall|i: int| 0 <= i < tf1.len() implies jv_wf(#[trigger] tf1[i].1) by {
                    assert(tf1[i] == if tf[i].0 == head.0 {
                        (head.0, merged)
                    } else {
                        tf[i]
                    });
                }
                assert(jv_wf(Jv::Obj(tf1)));
            } else {
                lemma_obj_push(tf, (head.0, merged));
                assert(tf1 == tf.push((head.0, merged)));
                assert forall|i: int| 0 <= i < tf1.len() implies jv_wf(#[trigger] tf1[i].1) by {
                    if i < tf.len() {
                        assert(tf1[i] == tf[i]);
                    } else {
                        assert(tf1[i] == (head.0, merged));
                    }
                }
                assert(jv_wf(Jv::Obj(tf1)));
            }
            lemma_merge_fields(tf1, rest);
            assert(obj_has_key(tf1, head.0) && obj_value(tf1, head.0) == merged);
        }
        // The binding of every key other than `head.0` is the same in `tf1`
        // as in `tf`, so the induction hypothesis carries over.
        assert forall|k: Seq<char>| k != head.0 implies #[trigger] obj_has_key(tf1, k)
            == obj_has_key(tf, k) && obj_get_or_null(tf1, k) == obj_get_or_null(tf, k) by {}
        assert forall|k: Seq<char>|
            obj_has_key(pf, k) && obj_value(pf, k) is Null implies !#[trigger] obj_has_key(
            r,
            k,
        ) by {
            if k == head.0 {
                assert(!obj_has_key(tf1, k));
            }
        }
        assert forall|k: Seq<char>|
            obj_has_key(pf, k) && !(obj_value(pf, k) is Null) implies #[trigger] obj_has_key(r, k)
            && obj_value(r, k) == spec_merge(obj_get_or_null(tf, k), obj_value(pf, k)) by {
            assert(obj_has_key(spec_merge_fields(tf1, rest), k) == obj_has_key(r, k));
            if k == head.0 {
                assert(!obj_has_key(rest, k));
                assert(obj_has_key(tf1, k));
                assert(obj_has_key(r, k));
                assert(obj_value(r, k) == obj_value(tf1, k));
                assert(obj_value(tf1, k) == spec_merge(obj_get_or_null(tf, k), head.1));
            } else {
                assert(obj_has_key(rest, k) && obj_value(rest, k) == obj_value(pf, k));
                assert(obj_value(r, k) == spec_merge(obj_get_or_null(tf1, k), obj_value(rest, k)));
                assert(obj_get_or_null(tf1, k) == obj_get_or_null(tf, k));
            }
        }
        assert(obj_has_key(pf, head.0));
        assert forall|k: Seq<char>| !obj_has_key(pf, k) implies #[trigger] obj_has_key(r, k)
            == obj_has_key(tf, k) && (obj_has_key(tf, k) ==> obj_value(r, k) == obj_value(
            tf,
            k,
        )) by {
            assert(k != head.0);
            assert(!obj_has_key(rest, k));
            assert(obj_has_key(spec_merge_fields(tf1, rest), k) == obj_has_key(r, k));
            assert(obj_has_key(r, k) == obj_has_key(tf1, k));
            assert(obj_has_key(tf1, k) == obj_has_key(tf, k));
            if obj_has_key(tf, k) {
                assert(obj_value(r, k) == obj_value(tf1, k));
                assert(obj_value(tf1, k) == obj_value(tf, k));
            }
        }
    }
}

// ---------------------------------------------------------------------------
// The view of a stored value, element by element.
// ---------------------------------------------------------------------------

/// `view_items` maps the element views in order.
pub proof fn lemma_view_items(s: Seq<JsonValue>)
    ensures
        view_items(s).len() == s.len(),
        forall|i: int| 0 <= i < s.len() ==> #[trigger] view_items(s)[i] == view_value(s[i]),
    decreases s.len(),
{
    if s.len() > 0 {
        lemma_view_items(s.subrange(1, s.len() as int));
    }
}

/// `view_fields` maps the pair views in order.
pub proof fn lemma_view_fields(s: Seq<(String, JsonValue)>)
    ensures
        view_fields(s).len() == s.len(),
        forall|i: int|
            0 <= i < s.len() ==> #[trigger] view_fields(s)[i] == (s[i].0@, view_value(s[i].1)),
    decreases s.len(),
{
    if s.len() > 0 {
        lemma_view_fields(s.subrange(1, s.len() as int));
    }
}

/// A bound value of a well-formed object is well-formed.
pub proof fn lemma_wf_obj_value(fs: Seq<(Seq<char>, Jv)>, k: Seq<char>)
    requires
        jv_wf(Jv::Obj(fs)),
        obj_has_key(fs, k),
    ensures
        jv_wf(obj_value(fs, k)),
{
    lemma_obj_value_entry(fs, k);
    let e = choose|e: int|
        0 <= e < fs.len() && fs[e].0 == k && #[trigger] fs[e].1 == obj_value(fs, k);
    assert(jv_wf(fs[e].1));
}

/// An element of a well-formed array is well-formed.
pub proof fn lemma_wf_arr_item(items: Seq<Jv>, i: int)
    requires
        jv_wf(Jv::Arr(items)),
        0 <= i < items.len(),
    ensures
        jv_wf(items[i]),
{
    assert(Jv::Arr(items)->Arr_0 == items);
    assert(jv_wf(Jv::Arr(items)->Arr_0[i]));
}

// ---------------------------------------------------------------------------
// Laws of merge-patch.
// ---------------------------------------------------------------------------

/// Removing an unbound key changes nothing.
proof fn lemma_obj_remove_absent(fs: Seq<(Seq<char>, Jv)>, k: Seq<char>)
    requires
        !obj_has_key(fs, k),
    ensures
        obj_remove(fs, k) == fs,
    decreases fs.len(),
{
    if fs.len() > 0 {
        lemma_obj_remove_absent(fs.subrange(1, fs.len() as int), k);
    }
    assert(obj_remove(fs, k) =~= fs);
}

/// Updating a key with the value it already holds changes nothing.
proof fn lemma_obj_update_same(fs: Seq<(Seq<char>, Jv)>, k: Seq<char>)
    requires
        obj_keys_unique(fs),
        obj_has_key(fs, k),
    ensures
        obj_update(fs, k, obj_value(fs, k)) == fs,
{
    let v = obj_value(fs, k);
    lemma_obj_update(fs, k, v);
    lemma_obj_has_key_exists(fs, k);
    let i = choose|i: int| 0 <= i < fs.len() && fs[i].0 == k;
    lemma_obj_value_first(fs, k, i);
    assert forall|ix: int| 0 <= ix < fs.len() implies #[trigger] obj_update(fs, k, v)[ix]
        == fs[ix] by {
        if fs[ix].0 == k {
            assert(ix == i);
        }
    }
    assert(obj_update(fs, k, v) =~= fs);
}

/// A patch whose every field is already settled in the target leaves the
/// target exactly as it is: deleted keys are absent, and merging each present
/// field over its current value returns that current value.
proof fn lemma_merge_fields_absorbed(tf: Seq<(Seq<char>, Jv)>, pf: Seq<(Seq<char>, Jv)>)
    requires
        obj_keys_unique(tf),
        forall|i: int|
            0 <= i < pf.len() ==> ((#[trigger] pf[i]).1 is Null ==> !obj_has_key(tf, pf[i].0)),
        forall|i: int|
            0 <= i < pf.len() ==> (!((#[trigger] pf[i]).1 is Null) ==> obj_has_key(tf, pf[i].0)
                && spec_merge(obj_value(tf, pf[i].0), pf[i].1) == obj_value(tf, pf[i].0)),
    ensures
        spec_merge_fields(tf, pf) == tf,
    decreases pf.len(),
{
    if pf.len() > 0 {
        let head = pf[0];
        let rest = pf.subrange(1, pf.len() as int);
        if head.1 is Null {
            lemma_obj_remove_absent(tf, head.0);
        } else {
            lemma_obj_update_same(tf, head.0);
        }
        assert(spec_apply_field(tf, head) == tf);
        assert forall|i: int|
            0 <= i < rest.len() implies ((#[trigger] rest[i]).1 is Null ==> !obj_has_key(
            tf,
            rest[i].0,
        )) && (!(rest[i].1 is Null) ==> obj_has_key(tf, rest[i].0) && spec_merge(
            obj_value(tf, rest[i].0),
            rest[i].1,
        ) == obj_value(tf, rest[i].0)) by {
            assert(rest[i] == pf[i + 1]);
        }
        lemma_merge_fields_absorbed(tf, rest);
    }
}

/// Merge idempotence: merging the same well-formed patch a second time
/// leaves the once-patched value unchanged.
pub proof fn lemma_merge_idempotent(t: Jv, p: Jv)
    requires
        jv_wf(t),
        jv_wf(p),
    ensures
        spec_merge(spec_merge(t, p), p) == spec_merge(t, p),
    decreases p,
{
    if p is Obj {
        let pf = p->Obj_0;
        let tf = if t is Obj {
            t->Obj_0
        } else {
            Seq::empty()
        };
        assert(jv_wf(Jv::Obj(tf)));
        assert(jv_wf(Jv::Obj(pf)));
        lemma_merge_fields(tf, pf);
        let rf = spec_merge_fields(tf, pf);
        assert forall|i: int|
            0 <= i < pf.len() implies ((#[trigger] pf[i]).1 is Null ==> !obj_has_key(
            rf,
            pf[i].0,
        )) && (!(pf[i].1 is Null) ==> obj_has_key(rf, pf[i].0) && spec_merge(
            obj_value(rf, pf[i].0),
            pf[i].1,
        ) == obj_value(rf, pf[i].0)) by {
            let k = pf[i].0;
            lemma_obj_value_first(pf, k, i);
            if !(pf[i].1 is Null) {
                let g = obj_get_or_null(tf, k);
                if obj_has_key(tf, k) {
                    lemma_obj_value_entry(tf, k);
                    let e = choose|e: int|
                        0 <= e < tf.len() && tf[e].0 == k && #[trigger] tf[e].1 == obj_value(tf, k);
                    assert(jv_wf(tf[e].1));
                }
                assert(jv_wf(g));
                assert(jv_wf(pf[i].1));
                lemma_merge_idempotent(g, pf[i].1);
                assert(obj_value(rf, k) == spec_merge(g, pf[i].1));
            }
        }
        lemma_merge_fields_absorbed(rf, pf);
        assert(spec_merge(spec_merge(t, p), p) == Jv::Obj(spec_merge_fields(rf, pf)));
    }
}

/// Last writer wins, field by field: after merging `p1` and then `p2`, a
/// scalar field of `p2` reads as `p2` set it, and a scalar field of `p1`
/// that `p2` does not mention reads as `p1` set it.
pub proof fn lemma_merge_last_writer_wins(t: Jv, p1: Jv, p2: Jv, k: Seq<char>)
    requires
        jv_wf(t),
        jv_wf(p1),
        jv_wf(p2),
        p1 is Obj,
        p2 is Obj,
    ensures
        obj_has_key(p2->Obj_0, k) && !(obj_value(p2->Obj_0, k) is Null) && !(obj_value(
            p2->Obj_0,
            k,
        ) is Obj) ==> obj_has_key(spec_merge(spec_merge(t, p1), p2)->Obj_0, k) && obj_value(
            spec_merge(spec_merge(t, p1), p2)->Obj_0,
            k,
        ) == obj_value(p2->Obj_0, k),
        !obj_has_key(p2->Obj_0, k) && obj_has_key(p1->Obj_0, k) && !(obj_value(p1->Obj_0, k)
            is Null) && !(obj_value(p1->Obj_0, k) is Obj) ==> obj_has_key(
            spec_merge(spec_merge(t, p1), p2)->Obj_0,
            k,
        ) && obj_value(spec_merge(spec_merge(t, p1), p2)->Obj_0, k) == obj_value(p1->Obj_0, k),
{
    let tf = if t is Obj {
        t->Obj_0
    } else {
        Seq::empty()
    };
    assert(jv_wf(Jv::Obj(tf)));
    assert(jv_wf(Jv::Obj(p1->Obj_0)));
    assert(jv_wf(Jv::Obj(p2->Obj_0)));
    lemma_merge_fields(tf, p1->Obj_0);
    lemma_merge_wf(t, p1);
    let r1 = spec_merge(t, p1);
    assert(r1 == Jv::Obj(spec_merge_fields(tf, p1->Obj_0)));
    assert(jv_wf(Jv::Obj(r1->Obj_0)));
    lemma_merge_fields(r1->Obj_0, p2->Obj_0);
}

// ---------------------------------------------------------------------------
// Executable operations on stored values.
// ---------------------------------------------------------------------------

/// A key's first match is its binding: no earlier pair carries the key.
pub proof fn lemma_obj_value_first(fs: Seq<(Seq<char>, Jv)>, k: Seq<char>, i: int)
    requires
        0 <= i < fs.len(),
        fs[i].0 == k,
        forall|j: int| 0 <= j < i ==> fs[j].0 != k,
    ensures
        obj_has_key(fs, k),
        obj_value(fs, k) == fs[i].1,
    decreases i,
{
    lemma_obj_has_key_exists(fs, k);
    if i > 0 {
        let rest = fs.subrange(1, fs.len() as int);
        assert forall|j: int| 0 <= j < i - 1 implies rest[j].0 != k by {
            assert(rest[j] == fs[j + 1]);
        }
        lemma_obj_value_first(rest, k, i - 1);
    }
}

/// Index of the first pair of `fs` whose key is `k`, if any.
fn find_key(fs: &Vec<(String, JsonValue)>, k: &String) -> (r: Option<usize>)
    ensures
        match r {
            Some(i) => i < fs@.len() && fs@[i as int].0@ == k@ && (forall|j: int|
                0 <= j < i ==> fs@[j].0@ != k@) && obj_has_key(view_fields(fs@), k@),
            None => !obj_has_key(view_fields(fs@), k@),
        },
{
    proof {
        lemma_view_fields(fs@);
        lemma_obj_has_key_exists(view_fields(fs@), k@);
    }
    let mut i: usize = 0;
    while i < fs.len()
        invariant
            i <= fs@.len(),
            forall|j: int| 0 <= j < i ==> fs@[j].0@ != k@,
        decreases fs@.len() - i,
    {
        if fs[i].0 == *k {
            proof {
                lemma_view_fields(fs@);
                lemma_obj_value_first(view_fields(fs@), k@, i as int);
            }
            return Some(i);
        }
        i = i + 1;
    }
    proof {
        lemma_view_fields(fs@);
        lemma_obj_has_key_exists(view_fields(fs@), k@);
    }
    None
}

/// A copy of `fs` without any pair bound to `k`.
#[verifier::loop_isolation(false)]
fn remove_key(fs: &Vec<(String, JsonValue)>, k: &String) -> (out: Vec<(String, JsonValue)>)
    ensures
        view_fields(out@) == obj_remove(view_fields(fs@), k@),
{
    let ghost vfs = view_fields(fs@);
    proof {
        lemma_view_fields(fs@);
    }
    let mut out: Vec<(String, JsonValue)> = Vec::new();
    let mut i: usize = 0;
    proof {
        assert(vfs.subrange(0, vfs.len() as int) =~= vfs);
        assert(Seq::<(Seq<char>, Jv)>::empty() + obj_remove(vfs, k@) =~= obj_remove(vfs, k@));
    }
    while i < fs.len()
        invariant
            i <= fs@.len(),
            obj_remove(vfs, k@) == view_fields(out@) + obj_remove(
                vfs.subrange(i as int, vfs.len() as int),
                k@,
            ),
        decreases fs@.len() - i,
    {
        let ghost sub_i = vfs.subrange(i as int, vfs.len() as int);
        let ghost sub_n = vfs.subrange(i as int + 1, vfs.len() as int);
        proof {
            assert(sub_i[0] == vfs[i as int]);
            assert(sub_i.subrange(1, sub_i.len() as int) =~= sub_n);
        }
        if fs[i].0 == *k {
            proof {
                assert(obj_remove(sub_i, k@) == obj_remove(sub_n, k@));
            }
        } else {
            let key = fs[i].0.clone();
            let c = clone_value(&fs[i].1);
            let ghost prev = out@;
            out.push((key, c));
            proof {
                lemma_view_fields(out@);
                lemma_view_fields(prev);
                assert(view_fields(out@) =~= view_fields(prev).push(vfs[i as int]));
                assert(obj_remove(sub_i, k@) == seq![vfs[i as int]] + obj_remove(sub_n, k@));
                assert(view_fields(prev) + (seq![vfs[i as int]] + obj_remove(sub_n, k@))
                    =~= view_fields(out@) + obj_remove(sub_n, k@));
            }
        }
        i = i + 1;
    }
    proof {
        assert(vfs.subrange(vfs.len() as int, vfs.len() as int) =~= Seq::<
            (Seq<char>, Jv),
        >::empty());
        assert(view_fields(out@) + Seq::<(Seq<char>, Jv)>::empty() =~= view_fields(out@));
    }
    out
}

/// A deep copy of a stored value.
#[verifier::loop_isolation(false)]
pub fn clone_value(v: &JsonValue) -> (r: JsonValue)
    ensures
        view_value(r) == view_value(*v),
    decreases *v,
{
    match v {
        JsonValue::Null => JsonValue::Null,
        JsonValue::Bool(b) => JsonValue::Bool(*b),
        JsonValue::Num(s) => JsonValue::Num(s.clone()),
        JsonValue::Str(s) => JsonValue::Str(s.clone()),
        JsonValue::Arr(items) => {
            let mut out: Vec<JsonValue> = Vec::new();
            let mut i: usize = 0;
            while i < items.len()
                invariant
                    i <= items.len(),
                    out@.len() == i as int,
                    forall|j: int| 0 <= j < i ==> view_value(#[trigger] out@[j]) == view_value(
                        items@[j],
                    ),
                decreases items.len() - i,
            {
                let c = clone_value(&items[i]);
                out.push(c);
                i = i + 1;
            }
            proof {
                lemma_view_items(out@);
                lemma_view_items(items@);
                assert(view_items(out@) =~= view_items(items@));
            }
            JsonValue::Arr(out)
        },
        JsonValue::Obj(fields) => {
            let mut out: Vec<(String, JsonValue)> = Vec::new();
            let mut i: usize = 0;
            while i < fields.len()
                invariant
                    i <= fields.len(),
                    out@.len() == i as int,
                    forall|j: int|
                        0 <= j < i ==> (#[trigger] out@[j]).0@ == fields@[j].0@ && view_value(
                            out@[j].1,
                        ) == view_value(fields@[j].1),
                decreases fields.len() - i,
            {
                let key = fields[i].0.clone();
                let c = clone_value(&fields[i].1);
                out.push((key, c));
                i = i + 1;
            }
            proof {
                lemma_view_fields(out@);
                lemma_view_fields(fields@);
                assert(view_fields(out@) =~= view_fields(fields@));
            }
            JsonValue::Obj(out)
        },
    }
}

/// Applies the merge-patch `p` to `t` and returns the patched value.
///
/// A non-object patch replaces `t` wholesale; an object patch is applied
/// field by field as [`spec_merge`] states.
#[verifier::loop_isolation(false)]
pub fn merge_value(t: JsonValue, p: &JsonValue) -> (r: JsonValue)
    requires
        jv_wf(view_value(t)),
        jv_wf(view_value(*p)),
    ensures
        view_value(r) == spec_merge(view_value(t), view_value(*p)),
        jv_wf(view_value(r)),
    decreases *p,
{
    match p {
        JsonValue::Obj(pf) => {
            let ghost pfv = view_fields(pf@);
            let mut tf: Vec<(String, JsonValue)> = match t {
                JsonValue::Obj(f) => f,
                _ => Vec::new(),
            };
            let ghost tfs0 = view_fields(tf@);
            proof {
                lemma_view_fields(pf@);
                assert(jv_wf(Jv::Obj(pfv)));
                assert(jv_wf(Jv::Obj(tfs0)));
                assert(pfv.subrange(0, pfv.len() as int) =~= pfv);
            }
            let mut i: usize = 0;
            while i < pf.len()
                invariant
                    i <= pf@.len(),
                    jv_wf(Jv::Obj(view_fields(tf@))),
                    spec_merge_fields(tfs0, pfv) == spec_merge_fields(
                        view_fields(tf@),
                        pfv.subrange(i as int, pfv.len() as int),
                    ),
                decreases pf@.len() - i,
            {
                let ghost tfs = view_fields(tf@);
                let ghost sub_i = pfv.subrange(i as int, pfv.len() as int);
                let ghost sub_n = pfv.subrange(i as int + 1, pfv.len() as int);
                let ghost field = pfv[i as int];
                proof {
                    assert(sub_i[0] == field);
                    assert(sub_i.subrange(1, sub_i.len() as int) =~= sub_n);
                    assert(spec_merge_fields(tfs, sub_i) == spec_merge_fields(
                        spec_apply_field(tfs, field),
                        sub_n,
                    ));
                    assert(jv_wf(field.1));
                }
                let key = &pf[i].0;
                let pv = &pf[i].1;
                let is_null = match pv {
                    JsonValue::Null => true,
                    _ => false,
                };
                if is_null {
                    tf = remove_key(&tf, key);
                    proof {
                        lemma_obj_remove(tfs, key@);
                        assert(view_fields(tf@) == spec_apply_field(tfs, field));
                        assert forall|ix: int| 0 <= ix < view_fields(tf@).len() implies jv_wf(
                            #[trigger] view_fields(tf@)[ix].1,
                        ) by {
                            let j = choose|j: int|
                                0 <= j < tfs.len() && view_fields(tf@)[ix] == tfs[j];
                            assert(jv_wf(tfs[j].1));
                        }
                        assert(jv_wf(Jv::Obj(view_fields(tf@))));
                    }
                } else {
                    match find_key(&tf, key) {
                        Some(j) => {
                            proof {
                                lemma_view_fields(tf@);
                                assert(tfs[j as int].0 == key@);
                                assert forall|jj: int| 0 <= jj < j implies tfs[jj].0 != key@ by {
                                    assert(tf@[jj].0@ != key@);
                                }
                                lemma_obj_value_first(tfs, key@, j as int);
                                assert(jv_wf(tfs[j as int].1));
                                assert(jv_wf(obj_value(tfs, key@)));
                            }
                            let cur = clone_value(&tf[j].1);
                            let merged = merge_value(cur, pv);
                            let newkey = key.clone();
                            let ghost prev = tf@;
                            tf[j] = (newkey, merged);
                            proof {
                                lemma_obj_update(tfs, key@, view_value(merged));
                                lemma_view_fields(tf@);
                                lemma_view_fields(prev);
                                assert forall|ix: int| 0 <= ix < tfs.len() implies #[trigger]
                                view_fields(tf@)[ix] == obj_update(
                                    tfs,
                                    key@,
                                    view_value(merged),
                                )[ix] by {
                                    if ix != j {
                                        assert(tf@[ix] == prev[ix]);
                                        assert(tfs[ix].0 != key@);
                                    }
                                }
                                assert(view_fields(tf@) =~= obj_update(
                                    tfs,
                                    key@,
                                    view_value(merged),
                                ));
                                assert(view_fields(tf@) == spec_apply_field(tfs, field));
                                assert forall|ix: int| 0 <= ix < view_fields(tf@).len() implies
                                jv_wf(#[trigger] view_fields(tf@)[ix].1) by {
                                    assert(view_fields(tf@)[ix] == if tfs[ix].0 == key@ {
                                        (key@, view_value(merged))
                                    } else {
                                        tfs[ix]
                                    });
                                }
                                assert(jv_wf(Jv::Obj(view_fields(tf@))));
                            }
                        },
                        None => {
                            let merged = merge_value(JsonValue::Null, pv);
                            let newkey = key.clone();
                            let ghost prev = tf@;
                            tf.push((newkey, merged));
                            proof {
                                lemma_obj_push(tfs, (key@, view_value(merged)));
                                lemma_view_fields(tf@);
                                lemma_view_fields(prev);
                                assert(view_fields(tf@) =~= tfs.push((key@, view_value(merged))));
                                assert(view_fields(tf@) == spec_apply_field(tfs, field));
                                assert forall|ix: int| 0 <= ix < view_fields(tf@).len() implies
                                jv_wf(#[trigger] view_fields(tf@)[ix].1) by {
                                    if ix < tfs.len() {
                                        assert(view_fields(tf@)[ix] == tfs[ix]);
                                    } else {
                                        assert(view_fields(tf@)[ix] == (key@, view_value(merged)));
                                    }
                                }
                                assert(jv_wf(Jv::Obj(view_fields(tf@))));
                            }
                        },
                    }
                }
                i = i + 1;
            }
            proof {
                assert(pfv.subrange(pfv.len() as int, pfv.len() as int) =~= Seq::<
                    (Seq<char>, Jv),
                >::empty());
            }
            JsonValue::Obj(tf)
        },
        _ => {
            clone_value(p)
        },
    }
}

/// Whether every object in the tree binds each key at most once.
#[verifier::loop_isolation(false)]
pub fn check_wf(v: &JsonValue) -> (r: bool)
    ensures
        r == jv_wf(view_value(*v)),
    decreases *v,
{
    match v {
        JsonValue::Null => true,
        JsonValue::Bool(_) => true,
        JsonValue::Num(_) => true,
        JsonValue::Str(_) => true,
        JsonValue::Arr(items) => {
            proof {
                lemma_view_items(items@);
            }
            let mut i: usize = 0;
            while i < items.len()
                invariant
                    i <= items@.len(),
                    forall|j: int| 0 <= j < i ==> jv_wf(view_value(#[trigger] items@[j])),
                decreases items@.len() - i,
            {
                if !check_wf(&items[i]) {
                    proof {
                        assert(!jv_wf(view_items(items@)[i as int]));
                        assert(view_value(*v) == Jv::Arr(view_items(items@)));
                        assert((i as int) < view_items(items@).len());
                        if jv_wf(Jv::Arr(view_items(items@))) {
                            assert(Jv::Arr(view_items(items@))->Arr_0 == view_items(items@));
                            assert(jv_wf(Jv::Arr(view_items(items@))->Arr_0[i as int]));
                        }
                        assert(!jv_wf(Jv::Arr(view_items(items@))));
                    }
                    return false;
                }
                i = i + 1;
            }
            proof {
                assert forall|j: int| 0 <= j < view_items(items@).len() implies jv_wf(
                    #[trigger] view_items(items@)[j],
                ) by {
                    assert(view_items(items@)[j] == view_value(items@[j]));
                }
            }
            true
        },
        JsonValue::Obj(fields) => {
            let ghost vfs = view_fields(fields@);
            proof {
                lemma_view_fields(fields@);
            }
            let mut i: usize = 0;
            while i < fields.len()
                invariant
                    i <= fields@.len(),
                    forall|a: int, b: int| 0 <= a < b < fields@.len() && a < i ==> vfs[a].0
                        != vfs[b].0,
                    forall|j: int| 0 <= j < i ==> jv_wf(#[trigger] vfs[j].1),
                decreases fields@.len() - i,
            {
                let mut j: usize = i + 1;
                while j < fields.len()
                    invariant
                        i < j || j == i + 1,
                        i < fields@.len(),
                        j <= fields@.len(),
                        forall|b: int| i < b < j ==> vfs[i as int].0 != vfs[b].0,
                    decreases fields@.len() - j,
                {
                    if fields[j].0 == fields[i].0 {
                        proof {
                            assert(vfs[i as int].0 == vfs[j as int].0);
                            assert(!obj_keys_unique(vfs));
                            assert(view_value(*v) == Jv::Obj(vfs));
                            assert(!jv_wf(Jv::Obj(vfs)));
                        }
                        return false;
                    }
                    j = j + 1;
                }
                if !check_wf(&fields[i].1) {
                    proof {
                        assert(!jv_wf(vfs[i as int].1));
                        assert(view_value(*v) == Jv::Obj(vfs));
                        assert(!jv_wf(Jv::Obj(vfs)));
                    }
                    return false;
                }
                i = i + 1;
            }
            true
        },
    }
}

} // verus!
