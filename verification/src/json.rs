//! A small JSON value model. Tool-call arguments, provider request bodies and
//! provider responses are all held as [`Json`] trees; [`JsonV`] is the
//! mathematical shape of such a tree, and [`json_text`] the exact text the
//! serializer produces (compact form, `"`, `\` and control characters escaped).

use vstd::prelude::*;

use crate::text::{dec_int, i64_str};

verus! {

broadcast use vstd::std_specs::vec::group_vec_axioms;

/// A JSON value. Numbers are modelled as signed 64-bit integers: every count,
/// coordinate and duration this crate exchanges is integral.
#[derive(Debug)]
pub enum Json {
    Null,
    Bool(bool),
    Int(i64),
    Str(String),
    Arr(Vec<Json>),
    Obj(Vec<(String, Json)>),
}

/// The mathematical shape of a [`Json`] tree.
#[verifier::ext_equal]
pub ghost enum JsonV {
    Null,
    Bool(bool),
    Int(int),
    Str(Seq<char>),
    Arr(Seq<JsonV>),
    Obj(Seq<(Seq<char>, JsonV)>),
}

/// The shape of a [`Json`] tree.
pub open spec fn json_view(j: Json) -> JsonV
    decreases j,
    via json_view_dec
{
    match j {
        Json::Null => JsonV::Null,
        Json::Bool(b) => JsonV::Bool(b),
        Json::Int(n) => JsonV::Int(n as int),
        Json::Str(s) => JsonV::Str(s@),
        Json::Arr(items) => JsonV::Arr(
            Seq::new(
                items@.len(),
                |i: int|
                    if 0 <= i < items@.len() {
                        json_view(items@[i])
                    } else {
                        JsonV::Null
                    },
            ),
        ),
        Json::Obj(entries) => JsonV::Obj(
            Seq::new(
                entries@.len(),
                |i: int|
                    if 0 <= i < entries@.len() {
                        (entries@[i].0@, json_view(entries@[i].1))
                    } else {
                        (Seq::empty(), JsonV::Null)
                    },
            ),
        ),
    }
}

#[via_fn]
proof fn json_view_dec(j: Json) {
    match j {
        Json::Arr(items) => {
            assert forall|i: int| 0 <= i < items@.len() implies decreases_to!(
                j => items@[i]
            ) by {
                assert(decreases_to!(j => j->Arr_0));
                assert(decreases_to!(j->Arr_0 => j->Arr_0@));
                assert(decreases_to!(j->Arr_0@ => j->Arr_0@[i]));
            }
        },
        Json::Obj(entries) => {
            assert forall|i: int| 0 <= i < entries@.len() implies decreases_to!(
                j => entries@[i].1
            ) by {
                assert(decreases_to!(j => j->Obj_0));
                assert(decreases_to!(j->Obj_0 => j->Obj_0@));
                assert(decreases_to!(j->Obj_0@ => j->Obj_0@[i]));
                assert(decreases_to!(j->Obj_0@[i] => j->Obj_0@[i].1));
            }
        },
        _ => {},
    }
}

impl View for Json {
    type V = JsonV;

    open spec fn view(&self) -> JsonV {
        json_view(*self)
    }
}

/// The array shape underneath `Json::Arr(v)`.
pub proof fn lemma_view_arr(v: Vec<Json>)
    ensures
        json_view(Json::Arr(v)) == JsonV::Arr(Seq::new(v@.len(), |i: int| v@[i]@)),
{
    let jv = json_view(Json::Arr(v));
    assert(jv is Arr);
    assert(jv->Arr_0 =~= Seq::new(v@.len(), |i: int| v@[i]@));
}

/// The object shape underneath `Json::Obj(v)`.
pub proof fn lemma_view_obj(v: Vec<(String, Json)>)
    ensures
        json_view(Json::Obj(v)) == JsonV::Obj(
            Seq::new(v@.len(), |i: int| (v@[i].0@, v@[i].1@)),
        ),
{
    let jv = json_view(Json::Obj(v));
    assert(jv is Obj);
    assert(jv->Obj_0 =~= Seq::new(v@.len(), |i: int| (v@[i].0@, v@[i].1@)));
}

/// First entry with the given key, if any.
pub open spec fn obj_lookup(entries: Seq<(Seq<char>, JsonV)>, key: Seq<char>) -> Option<
    JsonV,
>
    decreases entries.len(),
{
    if entries.len() == 0 {
        None
    } else if entries[0].0 == key {
        Some(entries[0].1)
    } else {
        obj_lookup(entries.subrange(1, entries.len() as int), key)
    }
}

/// Field access: the value under `key` when `v` is an object that has it.
pub open spec fn spec_get(v: JsonV, key: Seq<char>) -> Option<JsonV> {
    match v {
        JsonV::Obj(entries) => obj_lookup(entries, key),
        _ => None,
    }
}

/// The string content of `v`, when `v` is a string.
pub open spec fn spec_as_str(v: JsonV) -> Option<Seq<char>> {
    match v {
        JsonV::Str(s) => Some(s),
        _ => None,
    }
}

/// The integer content of `v`, when `v` is a number.
pub open spec fn spec_as_int(v: JsonV) -> Option<int> {
    match v {
        JsonV::Int(n) => Some(n),
        _ => None,
    }
}

/// The string under `key`, when present.
pub open spec fn spec_get_str(v: JsonV, key: Seq<char>) -> Option<Seq<char>> {
    match spec_get(v, key) {
        Some(f) => spec_as_str(f),
        None => None,
    }
}

/// The integer under `key`, when present.
pub open spec fn spec_get_int(v: JsonV, key: Seq<char>) -> Option<int> {
    match spec_get(v, key) {
        Some(f) => spec_as_int(f),
        None => None,
    }
}


proof fn lemma_arr_elem_decreases(j: Json, i: int)
    requires
        j is Arr,
        0 <= i < j->Arr_0@.len(),
    ensures
        decreases_to!(j => j->Arr_0@[i]),
{
    assert(decreases_to!(j => j->Arr_0));
    assert(decreases_to!(j->Arr_0 => j->Arr_0@));
    assert(decreases_to!(j->Arr_0@ => j->Arr_0@[i]));
}

proof fn lemma_obj_elem_decreases(j: Json, i: int)
    requires
        j is Obj,
        0 <= i < j->Obj_0@.len(),
    ensures
        decreases_to!(j => j->Obj_0@[i].1),
{
    assert(decreases_to!(j => j->Obj_0));
    assert(decreases_to!(j->Obj_0 => j->Obj_0@));
    assert(decreases_to!(j->Obj_0@ => j->Obj_0@[i]));
    assert(decreases_to!(j->Obj_0@[i] => j->Obj_0@[i].1));
}

impl Json {
    /// The value under `key` when this is an object with such an entry.
    pub fn get<'a>(&'a self, key: &str) -> (r: Option<&'a Json>)
        ensures
            match r {
                Some(f) => spec_get(self@, key@) == Some(f@),
                None => spec_get(self@, key@) is None,
            },
    {
        match self {
            Json::Obj(entries) => {
                let ghost es = Seq::new(entries@.len(), |i: int| (entries@[i].0@, entries@[i].1@));
                proof {
                    assert(es.subrange(0, es.len() as int) =~= es);
                }
                let mut i: usize = 0;
                while i < entries.len()
                    invariant
                        self is Obj,
                        entries@ == self->Obj_0@,
                        es == Seq::new(
                            entries@.len(),
                            |i: int| (entries@[i].0@, entries@[i].1@),
                        ),
                        i <= entries@.len(),
                        obj_lookup(es, key@) == obj_lookup(
                            es.subrange(i as int, es.len() as int),
                            key@,
                        ),
                    decreases entries@.len() - i,
                {
                    let hit = crate::text::str_eq(entries[i].0.as_str(), key);
                    proof {
                        assert(es.subrange(i as int, es.len() as int)[0] == es[i as int]);
                    }
                    if hit {
                        proof {
                            lemma_view_obj(self->Obj_0);
                            assert(Seq::new(
                                self->Obj_0@.len(),
                                |k: int| (self->Obj_0@[k].0@, self->Obj_0@[k].1@),
                            ) =~= es);
                        }
                        return Some(&entries[i].1);
                    }
                    proof {
                        assert(es.subrange(i as int, es.len() as int).subrange(
                            1,
                            es.len() - i,
                        ) =~= es.subrange(i + 1, es.len() as int));
                    }
                    i += 1;
                }
                proof {
                    lemma_view_obj(*entries);
                    assert(Seq::new(
                        entries@.len(),
                        |k: int| (entries@[k].0@, entries@[k].1@),
                    ) =~= es);
                    assert(es.subrange(es.len() as int, es.len() as int).len() == 0);
                }
                None
            },
            _ => None,
        }
    }

    /// The string content, when this is a string.
    pub fn as_str<'a>(&'a self) -> (r: Option<&'a String>)
        ensures
            match r {
                Some(s) => spec_as_str(self@) == Some(s@),
                None => spec_as_str(self@) is None,
            },
    {
        match self {
            Json::Str(s) => Some(s),
            _ => None,
        }
    }

    /// The integer content, when this is a number.
    pub fn as_i64(&self) -> (r: Option<i64>)
        ensures
            match r {
                Some(n) => spec_as_int(self@) == Some(n as int),
                None => spec_as_int(self@) is None,
            },
    {
        match self {
            Json::Int(n) => Some(*n),
            _ => None,
        }
    }

    /// The integer content when this is a non-negative number.
    pub fn as_u64(&self) -> (r: Option<u64>)
        ensures
            match r {
                Some(n) => spec_as_int(self@) == Some(n as int),
                None => match spec_as_int(self@) {
                    Some(n) => n < 0,
                    None => true,
                },
            },
    {
        match self {
            Json::Int(n) => if *n >= 0 {
                Some(*n as u64)
            } else {
                None
            },
            _ => None,
        }
    }

    /// The element list, when this is an array.
    pub fn as_arr<'a>(&'a self) -> (r: Option<&'a Vec<Json>>)
        ensures
            match r {
                Some(items) => self@ == JsonV::Arr(
                    Seq::new(items@.len(), |i: int| items@[i]@),
                ),
                None => !(self@ is Arr),
            },
    {
        match self {
            Json::Arr(items) => {
                proof {
                    lemma_view_arr(*items);
                }
                Some(items)
            },
            _ => None,
        }
    }

    /// The string under `key`, when present.
    pub fn get_str<'a>(&'a self, key: &str) -> (r: Option<&'a String>)
        ensures
            match r {
                Some(s) => spec_get_str(self@, key@) == Some(s@),
                None => spec_get_str(self@, key@) is None,
            },
    {
        match self.get(key) {
            Some(f) => f.as_str(),
            None => None,
        }
    }

    /// The integer under `key`, when present.
    pub fn get_i64(&self, key: &str) -> (r: Option<i64>)
        ensures
            match r {
                Some(n) => spec_get_int(self@, key@) == Some(n as int),
                None => spec_get_int(self@, key@) is None,
            },
    {
        match self.get(key) {
            Some(f) => f.as_i64(),
            None => None,
        }
    }

    /// The non-negative integer under `key`, when present.
    pub fn get_u64(&self, key: &str) -> (r: Option<u64>)
        ensures
            match r {
                Some(n) => spec_get_int(self@, key@) == Some(n as int) && n as int >= 0,
                None => match spec_get_int(self@, key@) {
                    Some(n) => n < 0,
                    None => true,
                },
            },
    {
        match self.get(key) {
            Some(f) => f.as_u64(),
            None => None,
        }
    }

    /// A structurally equal copy of this value.
    pub fn duplicate(&self) -> (r: Json)
        ensures
            r@ == self@,
        decreases self,
    {
        match self {
            Json::Null => Json::Null,
            Json::Bool(b) => Json::Bool(*b),
            Json::Int(n) => Json::Int(*n),
            Json::Str(s) => Json::Str(s.clone()),
            Json::Arr(items) => {
                let mut out: Vec<Json> = Vec::new();
                let mut i: usize = 0;
                while i < items.len()
                    invariant
                        self is Arr,
                        items@ == self->Arr_0@,
                        i <= items@.len(),
                        out@.len() == i,
                        forall|k: int| 0 <= k < i ==> out@[k]@ == items@[k]@,
                    decreases items@.len() - i,
                {
                    proof {
                        lemma_arr_elem_decreases(*self, i as int);
                    }
                    out.push(items[i].duplicate());
                    i += 1;
                }
                proof {
                    lemma_view_arr(out);
                    lemma_view_arr(*items);
                    assert(Seq::new(out@.len(), |i: int| out@[i]@) =~= Seq::new(
                        items@.len(),
                        |i: int| items@[i]@,
                    ));
                }
                Json::Arr(out)
            },
            Json::Obj(entries) => {
                let mut out: Vec<(String, Json)> = Vec::new();
                let mut i: usize = 0;
                while i < entries.len()
                    invariant
                        self is Obj,
                        entries@ == self->Obj_0@,
                        i <= entries@.len(),
                        out@.len() == i,
                        forall|k: int| 0 <= k < i ==> out@[k].0@ == entries@[k].0@
                            && out@[k].1@ == entries@[k].1@,
                    decreases entries@.len() - i,
                {
                    proof {
                        lemma_obj_elem_decreases(*self, i as int);
                    }
                    out.push((entries[i].0.clone(), entries[i].1.duplicate()));
                    i += 1;
                }
                proof {
                    lemma_view_obj(out);
                    lemma_view_obj(*entries);
                    assert(Seq::new(out@.len(), |i: int| (out@[i].0@, out@[i].1@)) =~= Seq::new(
                        entries@.len(),
                        |i: int| (entries@[i].0@, entries@[i].1@),
                    ));
                }
                Json::Obj(out)
            },
        }
    }
}

/// The hexadecimal digit character for `d` (`0 <= d <= 15`), lower case.
pub open spec fn hex_char(d: int) -> char {
    if d == 10 { 'a' } else if d == 11 { 'b' } else if d == 12 { 'c' }
    else if d == 13 { 'd' } else if d == 14 { 'e' } else if d == 15 { 'f' }
    else { crate::text::digit_char(d) }
}

/// How one character appears inside a serialized JSON string literal.
pub open spec fn esc_char(c: char) -> Seq<char> {
    if c == '"' { seq!['\\', '"'] }
    else if c == '\\' { seq!['\\', '\\'] }
    else if c == '\u{8}' { seq!['\\', 'b'] }
    else if c == '\u{c}' { seq!['\\', 'f'] }
    else if c == '\n' { seq!['\\', 'n'] }
    else if c == '\r' { seq!['\\', 'r'] }
    else if c == '\t' { seq!['\\', 't'] }
    else if (c as u32) < 32 {
        seq!['\\', 'u', '0', '0', hex_char((c as u32) as int / 16), hex_char(
            (c as u32) as int % 16,
        )]
    } else { seq![c] }
}

/// The serialized content of a JSON string literal (without the quotes).
pub open spec fn esc_seq(s: Seq<char>) -> Seq<char>
    decreases s.len(),
{
    if s.len() == 0 {
        Seq::empty()
    } else {
        esc_char(s[0]) + esc_seq(s.subrange(1, s.len() as int))
    }
}

/// The serialized form of a JSON value: compact, no added whitespace.
pub open spec fn json_text(v: JsonV) -> Seq<char>
    decreases v, 0int,
{
    match v {
        JsonV::Null => "null"@,
        JsonV::Bool(b) => if b {
            "true"@
        } else {
            "false"@
        },
        JsonV::Int(n) => dec_int(n),
        JsonV::Str(s) => seq!['"'] + esc_seq(s) + seq!['"'],
        JsonV::Arr(items) => seq!['['] + items_text(items) + seq![']'],
        JsonV::Obj(entries) => seq!['{'] + entries_text(entries) + seq!['}'],
    }
}

/// Comma-separated serialization of array elements.
pub open spec fn items_text(items: Seq<JsonV>) -> Seq<char>
    decreases items, 1int,
{
    if items.len() == 0 {
        Seq::empty()
    } else {
        json_text(items[0]) + items_rest(items.subrange(1, items.len() as int))
    }
}

/// `,`-prefixed serialization of each further array element.
pub open spec fn items_rest(items: Seq<JsonV>) -> Seq<char>
    decreases items, 2int,
{
    if items.len() == 0 {
        Seq::empty()
    } else {
        seq![','] + json_text(items[0]) + items_rest(items.subrange(1, items.len() as int))
    }
}

/// The serialization of one object entry: quoted key, colon, value.
pub open spec fn entry_text(e: (Seq<char>, JsonV)) -> Seq<char>
    decreases e, 0int,
{
    seq!['"'] + esc_seq(e.0) + seq!['"', ':'] + json_text(e.1)
}

/// Comma-separated serialization of object entries.
pub open spec fn entries_text(entries: Seq<(Seq<char>, JsonV)>) -> Seq<char>
    decreases entries, 1int,
{
    if entries.len() == 0 {
        Seq::empty()
    } else {
        entry_text(entries[0]) + entries_rest(entries.subrange(1, entries.len() as int))
    }
}

/// `,`-prefixed serialization of each further object entry.
pub open spec fn entries_rest(entries: Seq<(Seq<char>, JsonV)>) -> Seq<char>
    decreases entries, 2int,
{
    if entries.len() == 0 {
        Seq::empty()
    } else {
        seq![','] + entry_text(entries[0]) + entries_rest(
            entries.subrange(1, entries.len() as int),
        )
    }
}

proof fn lemma_esc_snoc(s: Seq<char>, i: int)
    requires
        0 <= i < s.len(),
    ensures
        esc_seq(s.subrange(0, i + 1)) == esc_seq(s.subrange(0, i)) + esc_char(s[i]),
    decreases i,
{
    reveal_with_fuel(esc_seq, 3);
    let a = s.subrange(0, i + 1);
    let b = s.subrange(0, i);
    if i == 0 {
        assert(a.subrange(1, a.len() as int) =~= Seq::empty());
        assert(esc_seq(a) =~= esc_char(s[0]));
        assert(esc_seq(b) =~= Seq::empty());
        assert(esc_seq(b) + esc_char(s[0]) =~= esc_char(s[0]));
    } else {
        let t = s.subrange(1, s.len() as int);
        lemma_esc_snoc(t, i - 1);
        assert(a.subrange(1, a.len() as int) =~= t.subrange(0, i));
        assert(b.subrange(1, b.len() as int) =~= t.subrange(0, i - 1));
        assert(t[i - 1] == s[i]);
        assert(esc_seq(a) == esc_char(s[0]) + esc_seq(t.subrange(0, i)));
        assert(esc_seq(t.subrange(0, i)) == esc_seq(t.subrange(0, i - 1)) + esc_char(s[i]));
        assert(esc_char(s[0]) + (esc_seq(t.subrange(0, i - 1)) + esc_char(s[i]))
            =~= (esc_char(s[0]) + esc_seq(t.subrange(0, i - 1))) + esc_char(s[i]));
    }
}

proof fn lemma_items_rest_snoc(items: Seq<JsonV>, i: int)
    requires
        0 <= i < items.len(),
    ensures
        items_rest(items.subrange(0, i + 1)) == items_rest(items.subrange(0, i))
            + seq![','] + json_text(items[i]),
    decreases i,
{
    reveal_with_fuel(items_rest, 3);
    let a = items.subrange(0, i + 1);
    let b = items.subrange(0, i);
    if i == 0 {
        assert(a.subrange(1, a.len() as int) =~= Seq::empty());
        assert(items_rest(a) =~= seq![','] + json_text(items[0]));
        assert(items_rest(b) =~= Seq::empty());
        assert(items_rest(b) + seq![','] + json_text(items[0]) =~= seq![','] + json_text(
            items[0],
        ));
    } else {
        let t = items.subrange(1, items.len() as int);
        lemma_items_rest_snoc(t, i - 1);
        assert(a.subrange(1, a.len() as int) =~= t.subrange(0, i));
        assert(b.subrange(1, b.len() as int) =~= t.subrange(0, i - 1));
        assert(t[i - 1] == items[i]);
        assert(items_rest(a) == seq![','] + json_text(items[0]) + items_rest(
            t.subrange(0, i),
        ));
        assert(items_rest(t.subrange(0, i)) == items_rest(t.subrange(0, i - 1)) + seq![',']
            + json_text(items[i]));
        assert(seq![','] + json_text(items[0]) + (items_rest(t.subrange(0, i - 1))
            + seq![','] + json_text(items[i])) =~= (seq![','] + json_text(items[0])
            + items_rest(t.subrange(0, i - 1))) + seq![','] + json_text(items[i]));
    }
}

proof fn lemma_entries_rest_snoc(entries: Seq<(Seq<char>, JsonV)>, i: int)
    requires
        0 <= i < entries.len(),
    ensures
        entries_rest(entries.subrange(0, i + 1)) == entries_rest(entries.subrange(0, i))
            + seq![','] + entry_text(entries[i]),
    decreases i,
{
    reveal_with_fuel(entries_rest, 3);
    let a = entries.subrange(0, i + 1);
    let b = entries.subrange(0, i);
    if i == 0 {
        assert(a.subrange(1, a.len() as int) =~= Seq::empty());
        assert(entries_rest(a) =~= seq![','] + entry_text(entries[0]));
        assert(entries_rest(b) =~= Seq::empty());
        assert(entries_rest(b) + seq![','] + entry_text(entries[0]) =~= seq![','] + entry_text(
            entries[0],
        ));
    } else {
        let t = entries.subrange(1, entries.len() as int);
        lemma_entries_rest_snoc(t, i - 1);
        assert(a.subrange(1, a.len() as int) =~= t.subrange(0, i));
        assert(b.subrange(1, b.len() as int) =~= t.subrange(0, i - 1));
        assert(t[i - 1] == entries[i]);
        assert(entries_rest(a) == seq![','] + entry_text(entries[0]) + entries_rest(
            t.subrange(0, i),
        ));
        assert(entries_rest(t.subrange(0, i)) == entries_rest(t.subrange(0, i - 1))
            + seq![','] + entry_text(entries[i]));
        assert(seq![','] + entry_text(entries[0]) + (entries_rest(t.subrange(0, i - 1))
            + seq![','] + entry_text(entries[i])) =~= (seq![','] + entry_text(entries[0])
            + entries_rest(t.subrange(0, i - 1))) + seq![','] + entry_text(entries[i]));
    }
}

/// The two-character string for one lower-case hexadecimal digit.
fn hex_digit_str(d: u32) -> (r: &'static str)
    requires
        d < 16,
    ensures
        r@ =~= seq![hex_char(d as int)],
{
    let r: &'static str = if d == 0 { "0" } else if d == 1 { "1" }
    else if d == 2 { "2" } else if d == 3 { "3" } else if d == 4 { "4" }
    else if d == 5 { "5" } else if d == 6 { "6" } else if d == 7 { "7" }
    else if d == 8 { "8" } else if d == 9 { "9" } else if d == 10 { "a" }
    else if d == 11 { "b" } else if d == 12 { "c" } else if d == 13 { "d" }
    else if d == 14 { "e" } else { "f" };
    proof {
        reveal_strlit("0"); reveal_strlit("1"); reveal_strlit("2");
        reveal_strlit("3"); reveal_strlit("4"); reveal_strlit("5");
        reveal_strlit("6"); reveal_strlit("7"); reveal_strlit("8");
        reveal_strlit("9"); reveal_strlit("a"); reveal_strlit("b");
        reveal_strlit("c"); reveal_strlit("d"); reveal_strlit("e");
        reveal_strlit("f");
    }
    r
}

/// Append the escaped content of `s` (as it appears inside a JSON string
/// literal) to `out`.
fn escape_into(out: &mut String, s: &str)
    ensures
        final(out)@ == old(out)@ + esc_seq(s@),
{
    let len = s.unicode_len();
    let mut i: usize = 0;
    proof {
        assert(s@.subrange(0, 0) =~= Seq::empty());
        assert(out@ + Seq::<char>::empty() =~= out@);
    }
    while i < len
        invariant
            len == s@.len(),
            i <= len,
            out@ == old(out)@ + esc_seq(s@.subrange(0, i as int)),
        decreases len - i,
    {
        let c = s.get_char(i);
        if c == '"' {
            out.append("\\\"");
            proof {
                reveal_strlit("\\\"");
                assert("\\\""@ =~= esc_char(c));
            }
        } else if c == '\\' {
            out.append("\\\\");
            proof {
                reveal_strlit("\\\\");
                assert("\\\\"@ =~= esc_char(c));
            }
        } else if c == '\u{8}' {
            out.append("\\b");
            proof {
                reveal_strlit("\\b");
                assert("\\b"@ =~= esc_char(c));
            }
        } else if c == '\u{c}' {
            out.append("\\f");
            proof {
                reveal_strlit("\\f");
                assert("\\f"@ =~= esc_char(c));
            }
        } else if c == '\n' {
            out.append("\\n");
            proof {
                reveal_strlit("\\n");
                assert("\\n"@ =~= esc_char(c));
            }
        } else if c == '\r' {
            out.append("\\r");
            proof {
                reveal_strlit("\\r");
                assert("\\r"@ =~= esc_char(c));
            }
        } else if c == '\t' {
            out.append("\\t");
            proof {
                reveal_strlit("\\t");
                assert("\\t"@ =~= esc_char(c));
            }
        } else if (c as u32) < 32 {
            let code = c as u32;
            out.append("\\u00");
            out.append(hex_digit_str(code / 16));
            out.append(hex_digit_str(code % 16));
            proof {
                reveal_strlit("\\u00");
                assert("\\u00"@ + seq![hex_char(code as int / 16)] + seq![hex_char(
                    code as int % 16,
                )] =~= esc_char(c));
            }
        } else {
            out.append(s.substring_char(i, i + 1));
            proof {
                assert(s@.subrange(i as int, i + 1) =~= seq![s@[i as int]]);
                assert(seq![s@[i as int]] =~= esc_char(c));
            }
        }
        proof {
            lemma_esc_snoc(s@, i as int);
        }
        i += 1;
    }
    proof {
        assert(s@.subrange(0, len as int) =~= s@);
    }
}

impl Json {
    /// Serialize this value: the exact text is given by [`json_text`].
    pub fn to_text(&self) -> (r: String)
        ensures
            r@ == json_text(self@),
        decreases self,
    {
        match self {
            Json::Null => String::from_str("null"),
            Json::Bool(b) => if *b {
                String::from_str("true")
            } else {
                String::from_str("false")
            },
            Json::Int(n) => i64_str(*n),
            Json::Str(s) => {
                let mut out = String::from_str("\"");
                proof {
                    reveal_strlit("\"");
                }
                escape_into(&mut out, s.as_str());
                out.append("\"");
                proof {
                    assert(out@ =~= seq!['"'] + esc_seq(s@) + seq!['"']);
                }
                out
            },
            Json::Arr(items) => {
                let ghost iv = Seq::new(items@.len(), |i: int| items@[i]@);
                let mut out = String::from_str("[");
                proof {
                    reveal_strlit("[");
                }
                let mut i: usize = 0;
                while i < items.len()
                    invariant
                        self is Arr,
                        items@ == self->Arr_0@,
                        iv == Seq::new(items@.len(), |i: int| items@[i]@),
                        i <= items@.len(),
                        i == 0 ==> out@ == seq!['['],
                        i > 0 ==> out@ == seq!['['] + json_text(iv[0]) + items_rest(
                            iv.subrange(1, i as int),
                        ),
                    decreases items@.len() - i,
                {
                    if i > 0 {
                        out.append(",");
                        proof {
                            reveal_strlit(",");
                        }
                    }
                    proof {
                        lemma_arr_elem_decreases(*self, i as int);
                    }
                    let piece = items[i].to_text();
                    out.append(piece.as_str());
                    proof {
                        if i == 0 {
                            assert(iv.subrange(1, 1) =~= Seq::<JsonV>::empty());
                            assert(out@ =~= seq!['['] + json_text(iv[0]) + items_rest(
                                iv.subrange(1, 1),
                            ));
                        } else {
                            let t = iv.subrange(1, iv.len() as int);
                            lemma_items_rest_snoc(t, i - 1);
                            assert(t.subrange(0, i - 1) =~= iv.subrange(1, i as int));
                            assert(t.subrange(0, i as int) =~= iv.subrange(1, i + 1));
                            assert(t[i - 1] == iv[i as int]);
                            assert(out@ =~= seq!['['] + json_text(iv[0]) + items_rest(
                                iv.subrange(1, i + 1),
                            ));
                        }
                    }
                    i += 1;
                }
                out.append("]");
                proof {
                    reveal_strlit("]");
                    lemma_view_arr(*items);
                    if items@.len() == 0 {
                        assert(items_text(iv) =~= Seq::empty());
                        assert(out@ =~= seq!['['] + items_text(iv) + seq![']']);
                    } else {
                        assert(iv.subrange(1, iv.len() as int) =~= iv.subrange(
                            1,
                            items@.len() as int,
                        ));
                        assert(items_text(iv) == json_text(iv[0]) + items_rest(
                            iv.subrange(1, iv.len() as int),
                        ));
                        assert(out@ =~= seq!['['] + items_text(iv) + seq![']']);
                    }
                }
                out
            },
            Json::Obj(entries) => {
                let ghost ev = Seq::new(entries@.len(), |i: int| (entries@[i].0@, entries@[i].1@));
                let mut out = String::from_str("{");
                proof {
                    reveal_strlit("{");
                }
                let mut i: usize = 0;
                while i < entries.len()
                    invariant
                        self is Obj,
                        entries@ == self->Obj_0@,
                        ev == Seq::new(
                            entries@.len(),
                            |i: int| (entries@[i].0@, entries@[i].1@),
                        ),
                        i <= entries@.len(),
                        i == 0 ==> out@ == seq!['{'],
                        i > 0 ==> out@ == seq!['{'] + entry_text(ev[0]) + entries_rest(
                            ev.subrange(1, i as int),
                        ),
                    decreases entries@.len() - i,
                {
                    if i > 0 {
                        out.append(",");
                        proof {
                            reveal_strlit(",");
                        }
                    }
                    out.append("\"");
                    proof {
                        reveal_strlit("\"");
                    }
                    escape_into(&mut out, entries[i].0.as_str());
                    out.append("\":");
                    proof {
                        reveal_strlit("\":");
                    }
                    proof {
                        lemma_obj_elem_decreases(*self, i as int);
                    }
                    let piece = entries[i].1.to_text();
                    out.append(piece.as_str());
                    proof {
                        assert(seq!['"'] + esc_seq(ev[i as int].0) + "\":"@ + json_text(
                            ev[i as int].1,
                        ) =~= entry_text(ev[i as int]));
                        if i == 0 {
                            assert(ev.subrange(1, 1) =~= Seq::<(Seq<char>, JsonV)>::empty());
                            assert(out@ =~= seq!['{'] + entry_text(ev[0]) + entries_rest(
                                ev.subrange(1, 1),
                            ));
                        } else {
                            let t = ev.subrange(1, ev.len() as int);
                            lemma_entries_rest_snoc(t, i - 1);
                            assert(t.subrange(0, i - 1) =~= ev.subrange(1, i as int));
                            assert(t.subrange(0, i as int) =~= ev.subrange(1, i + 1));
                            assert(t[i - 1] == ev[i as int]);
                            assert(out@ =~= seq!['{'] + entry_text(ev[0]) + entries_rest(
                                ev.subrange(1, i + 1),
                            ));
                        }
                    }
                    i += 1;
                }
                out.append("}");
                proof {
                    reveal_strlit("}");
                    lemma_view_obj(*entries);
                    if entries@.len() == 0 {
                        assert(entries_text(ev) =~= Seq::empty());
                        assert(out@ =~= seq!['{'] + entries_text(ev) + seq!['}']);
                    } else {
                        assert(ev.subrange(1, ev.len() as int) =~= ev.subrange(
                            1,
                            entries@.len() as int,
                        ));
                        assert(entries_text(ev) == entry_text(ev[0]) + entries_rest(
                            ev.subrange(1, ev.len() as int),
                        ));
                        assert(out@ =~= seq!['{'] + entries_text(ev) + seq!['}']);
                    }
                }
                out
            },
        }
    }
}

} // verus!
