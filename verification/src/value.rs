use vstd::assert_seqs_equal;
use crate::text::same_text;
use vstd::prelude::*;
use vstd::string::StringExecFns;

verus! {

/// A JSON number as a mathematical value.
pub enum SpecNumber {
    /// An integer.
    Int(int),
    /// A number that is not held as an integer, by its decimal text.
    Float(Seq<char>),
}

/// A JSON-shaped value as a mathematical value.
pub enum SpecValue {
    Null,
    Bool(bool),
    Number(SpecNumber),
    String(Seq<char>),
    Array(Seq<SpecValue>),
    /// The members in insertion order.
    Object(Seq<(Seq<char>, SpecValue)>),
}

/// A JSON number.
#[derive(Debug)]
pub enum Number {
    /// An integer from zero up.
    PosInt(u64),
    /// An integer that may be negative.
    NegInt(i64),
    /// Any other finite number, held as the decimal text that stands for it.
    Float(String),
}

/// A JSON-shaped value: a scalar, a sequence of values or a mapping from names to values.
#[derive(Debug)]
pub enum Value {
    Null,
    Bool(bool),
    Number(Number),
    String(String),
    Array(Vec<Value>),
    /// The members in insertion order.
    Object(Vec<(String, Value)>),
}

impl View for Number {
    type V = SpecNumber;

    open spec fn view(&self) -> SpecNumber {
        match self {
            Number::PosInt(u) => SpecNumber::Int(*u as int),
            Number::NegInt(i) => SpecNumber::Int(*i as int),
            Number::Float(t) => SpecNumber::Float(t@),
        }
    }
}

impl View for Value {
    type V = SpecValue;

    open spec fn view(&self) -> SpecValue
        decreases self, 0nat,
    {
        match self {
            Value::Null => SpecValue::Null,
            Value::Bool(b) => SpecValue::Bool(*b),
            Value::Number(n) => SpecValue::Number(n@),
            Value::String(s) => SpecValue::String(s@),
            Value::Array(items) => SpecValue::Array(
                Seq::new(
                    items.len() as nat,
                    |i: int|
                        if 0 <= i < items.len() {
                            items[i].view()
                        } else {
                            SpecValue::Null
                        },
                ),
            ),
            Value::Object(members) => SpecValue::Object(
                Seq::new(
                    members.len() as nat,
                    |i: int|
                        if 0 <= i < members.len() {
                            member_view(members[i])
                        } else {
                            (Seq::empty(), SpecValue::Null)
                        },
                ),
            ),
        }
    }
}

/// The view of one member of an object.
pub open spec fn member_view(m: (String, Value)) -> (Seq<char>, SpecValue)
    decreases m, 1nat,
{
    (m.0@, m.1.view())
}

/// The views of a sequence of values, in order.
pub open spec fn views(items: Seq<Value>) -> Seq<SpecValue> {
    Seq::new(items.len(), |i: int| items[i]@)
}

/// The views of the members of an object, in order.
pub open spec fn member_views(members: Seq<(String, Value)>) -> Seq<(Seq<char>, SpecValue)> {
    Seq::new(members.len(), |i: int| (members[i].0@, members[i].1@))
}

/// The view of an array holds the views of its items.
pub proof fn lemma_array_view(items: Vec<Value>)
    ensures
        Value::Array(items)@ == SpecValue::Array(views(items@)),
{
    assert(Value::Array(items)@->Array_0 =~= views(items@));
}

/// The view of an object holds the names and the views of its members.
pub proof fn lemma_object_view(members: Vec<(String, Value)>)
    ensures
        Value::Object(members)@ == SpecValue::Object(member_views(members@)),
{
    let left = Value::Object(members)@->Object_0;
    let right = member_views(members@);
    assert_seqs_equal!(left == right, i => {
        assert(left[i] == member_view(members[i]));
    });
}

impl Number {
    /// A copy of the number.
    pub fn duplicate(&self) -> (out: Number)
        ensures
            out@ == self@,
    {
        match self {
            Number::PosInt(u) => Number::PosInt(*u),
            Number::NegInt(i) => Number::NegInt(*i),
            Number::Float(t) => Number::Float(t.clone()),
        }
    }
}

impl Value {
    /// A copy of the value, children included.
    pub fn duplicate(&self) -> (out: Value)
        ensures
            out@ == self@,
        decreases self,
    {
        match self {
            Value::Null => Value::Null,
            Value::Bool(b) => Value::Bool(*b),
            Value::Number(n) => Value::Number(n.duplicate()),
            Value::String(s) => Value::String(s.clone()),
            Value::Array(items) => {
                let mut out: Vec<Value> = Vec::new();
                let mut i: usize = 0;
                while i < items.len()
                    invariant
                        self matches Value::Array(v) && v == items,
                        i <= items.len(),
                        out.len() == i,
                        forall|k: int| 0 <= k < i ==> out[k]@ == items[k]@,
                    decreases items.len() - i,
                {
                    out.push(items[i].duplicate());
                    i += 1;
                }
                let res = Value::Array(out);
                assert(res@->Array_0 =~= self@->Array_0);
                res
            },
            Value::Object(members) => {
                let mut out: Vec<(String, Value)> = Vec::new();
                let mut i: usize = 0;
                while i < members.len()
                    invariant
                        self matches Value::Object(v) && v == members,
                        self == Value::Object(*members),
                        i <= members.len(),
                        out.len() == i,
                        forall|k: int|
                            0 <= k < i ==> out[k].0@ == members[k].0@ && out[k].1@
                                == members[k].1@,
                    decreases members.len() - i,
                {
                    out.push((members[i].0.clone(), members[i].1.duplicate()));
                    i += 1;
                }
                proof {
                    lemma_object_view(out);
                    lemma_object_view(*members);
                    assert(member_views(out@) =~= member_views(members@));
                }
                Value::Object(out)
            },
        }
    }
}

/// The index of the first member named `key` from index `i` on; none if there is none.
pub open spec fn member_index(members: Seq<(Seq<char>, SpecValue)>, key: Seq<char>, i: int)
    -> Option<int>
    decreases members.len() - i,
{
    if i < 0 || i >= members.len() {
        None
    } else if members[i].0 == key {
        Some(i)
    } else {
        member_index(members, key, i + 1)
    }
}

/// The object `v` with `value` under `key`: in the place of the first member of that name,
/// or after all members where there is none. A value that is no object counts as an empty
/// one.
pub open spec fn with_member(v: SpecValue, key: Seq<char>, value: SpecValue) -> SpecValue {
    match v {
        SpecValue::Object(members) => match member_index(members, key, 0) {
            Some(i) => SpecValue::Object(members.update(i, (key, value))),
            None => SpecValue::Object(members.push((key, value))),
        },
        _ => SpecValue::Object(seq![(key, value)]),
    }
}

/// Where a member of that name is found, its index lies within the members.
pub proof fn lemma_member_index(members: Seq<(Seq<char>, SpecValue)>, key: Seq<char>, i: int)
    requires
        0 <= i,
    ensures
        member_index(members, key, i) matches Some(k) ==> i <= k < members.len() && members[k].0
            == key,
    decreases members.len() - i,
{
    if i < members.len() && members[i].0 != key {
        lemma_member_index(members, key, i + 1);
    }
}

/// Puts `value` under `key` into the object `context`.
pub fn set_member(context: Value, key: &str, value: Value) -> (out: Value)
    ensures
        out@ == with_member(context@, key@, value@),
{
    match context {
        Value::Object(members) => {
            let mut members = members;
            let ghost old_views = member_views(members@);
            proof {
                lemma_object_view(members);
            }
            let mut i: usize = 0;
            while i < members.len()
                invariant
                    i <= members.len(),
                    context@ == SpecValue::Object(old_views),
                    old_views == member_views(members@),
                    member_index(old_views, key@, 0) == member_index(old_views, key@, i as int),
                decreases members.len() - i,
            {
                if same_text(members[i].0.as_str(), key) {
                    members.set(i, (String::from_str(key), value));
                    proof {
                        lemma_object_view(members);
                        assert(member_views(members@) =~= old_views.update(
                            i as int,
                            (key@, value@),
                        ));
                    }
                    return Value::Object(members);
                }
                i = i + 1;
            }
            members.push((String::from_str(key), value));
            proof {
                lemma_object_view(members);
                assert(member_views(members@) =~= old_views.push((key@, value@)));
            }
            Value::Object(members)
        },
        _ => {
            let mut members: Vec<(String, Value)> = Vec::new();
            members.push((String::from_str(key), value));
            proof {
                lemma_object_view(members);
                assert(member_views(members@) =~= seq![(key@, value@)]);
            }
            Value::Object(members)
        },
    }
}

/// Whether no two of the members share a name.
pub open spec fn keys_unique(members: Seq<(Seq<char>, SpecValue)>) -> bool {
    forall|i: int, j: int|
        0 <= i < j < members.len() ==> (#[trigger] members[i]).0 != (#[trigger] members[j]).0
}

/// Whether a value is a proper JSON-shaped value: in every object in it, children included,
/// each name occurs once.
pub open spec fn well_formed(v: SpecValue) -> bool
    decreases v,
{
    match v {
        SpecValue::Array(items) => forall|i: int|
            0 <= i < items.len() ==> well_formed(#[trigger] items[i]),
        SpecValue::Object(members) => keys_unique(members) && forall|i: int|
            0 <= i < members.len() ==> well_formed((#[trigger] members[i]).1),
        _ => true,
    }
}

/// Putting a proper value under a name into a proper value gives a proper value, which holds
/// the new value under that name and every other member as before.
pub proof fn lemma_with_member(v: SpecValue, key: Seq<char>, value: SpecValue)
    requires
        well_formed(v),
        well_formed(value),
    ensures
        well_formed(with_member(v, key, value)),
        with_member(v, key, value) matches SpecValue::Object(members) && member_index(
            members,
            key,
            0,
        ) matches Some(k) && members[k].1 == value,
        v matches SpecValue::Object(before) ==> forall|i: int|
            0 <= i < before.len() && (#[trigger] before[i]).0 != key ==> with_member(
                v,
                key,
                value,
            )->Object_0[i] == before[i],
{
    match v {
        SpecValue::Object(members) => {
            lemma_member_index(members, key, 0);
            match member_index(members, key, 0) {
                Some(i) => {
                    let after = members.update(i, (key, value));
                    assert forall|a: int, b: int| 0 <= a < b < after.len() implies (
                    #[trigger] after[a]).0 != (#[trigger] after[b]).0 by {
                        assert(after[a].0 == members[a].0);
                        assert(after[b].0 == members[b].0);
                    }
                    assert forall|a: int| 0 <= a < after.len() implies well_formed(
                        (#[trigger] after[a]).1,
                    ) by {
                        if a != i {
                            assert(after[a] == members[a]);
                        }
                    }
                    lemma_member_index_finds(after, key, 0, i);
                },
                None => {
                    let after = members.push((key, value));
                    lemma_member_index_none(members, key, 0);
                    assert forall|a: int, b: int| 0 <= a < b < after.len() implies (
                    #[trigger] after[a]).0 != (#[trigger] after[b]).0 by {
                        assert(after[a] == members[a]);
                        if b < members.len() {
                            assert(after[b] == members[b]);
                        }
                    }
                    assert forall|a: int| 0 <= a < after.len() implies well_formed(
                        (#[trigger] after[a]).1,
                    ) by {
                        if a < members.len() {
                            assert(after[a] == members[a]);
                        }
                    }
                    assert forall|a: int| 0 <= a < members.len() implies (#[trigger] after[a]).0
                        != key by {
                        assert(after[a] == members[a]);
                    }
                    lemma_member_index_finds(after, key, 0, members.len() as int);
                },
            }
        },
        _ => {
            let after = seq![(key, value)];
            assert(after[0].1 == value);
            assert(member_index(after, key, 0) == Some(0int));
        },
    }
}

/// Where no member from index `i` on is found under a name, none of them carries it.
pub proof fn lemma_member_index_none(members: Seq<(Seq<char>, SpecValue)>, key: Seq<char>, i: int)
    requires
        0 <= i,
        member_index(members, key, i) is None,
    ensures
        forall|k: int| i <= k < members.len() ==> (#[trigger] members[k]).0 != key,
    decreases members.len() - i,
{
    if i < members.len() {
        lemma_member_index_none(members, key, i + 1);
    }
}

/// The member at index `k` is the one found under its name where no member between `i` and
/// `k` carries that name.
pub proof fn lemma_member_index_finds(
    members: Seq<(Seq<char>, SpecValue)>,
    key: Seq<char>,
    i: int,
    k: int,
)
    requires
        0 <= i <= k < members.len(),
        members[k].0 == key,
        forall|j: int| i <= j < k ==> (#[trigger] members[j]).0 != key,
    ensures
        member_index(members, key, i) == Some(k),
    decreases k - i,
{
    if i < k {
        lemma_member_index_finds(members, key, i + 1, k);
    }
}

fn has_unique_keys(members: &Vec<(String, Value)>) -> (b: bool)
    ensures
        b == keys_unique(member_views(members@)),
{
    let ghost names = member_views(members@);
    let mut j: usize = 0;
    while j < members.len()
        invariant
            j <= members.len(),
            names == member_views(members@),
            forall|a: int, b: int| 0 <= a < b < j ==> (#[trigger] names[a]).0 != (#[trigger] names[b]).0,
        decreases members.len() - j,
    {
        let mut i: usize = 0;
        while i < j
            invariant
                i <= j < members.len(),
                names == member_views(members@),
                forall|a: int| 0 <= a < i ==> (#[trigger] names[a]).0 != names[j as int].0,
            decreases j - i,
        {
            if same_text(members[i].0.as_str(), members[j].0.as_str()) {
                assert(names[i as int].0 == names[j as int].0);
                return false;
            }
            i = i + 1;
        }
        j = j + 1;
    }
    true
}

impl Value {
    /// Whether the value is a proper JSON-shaped value: whether each name occurs once in
    /// every object in it.
    pub fn is_well_formed(&self) -> (b: bool)
        ensures
            b == well_formed(self@),
        decreases self,
    {
        match self {
            Value::Array(items) => {
                proof {
                    lemma_array_view(*items);
                }
                let mut i: usize = 0;
                while i < items.len()
                    invariant
                        self == Value::Array(*items),
                        self@ == SpecValue::Array(views(items@)),
                        i <= items.len(),
                        forall|k: int| 0 <= k < i ==> well_formed(#[trigger] views(items@)[k]),
                    decreases items.len() - i,
                {
                    assert(views(items@)[i as int] == items[i as int]@);
                    if !items[i].is_well_formed() {
                        assert(!well_formed(self@->Array_0[i as int]));
                        return false;
                    }
                    i = i + 1;
                }
                true
            },
            Value::Object(members) => {
                proof {
                    lemma_object_view(*members);
                }
                if !has_unique_keys(members) {
                    return false;
                }
                let mut i: usize = 0;
                while i < members.len()
                    invariant
                        self == Value::Object(*members),
                        self@ == SpecValue::Object(member_views(members@)),
                        keys_unique(member_views(members@)),
                        i <= members.len(),
                        forall|k: int|
                            0 <= k < i ==> well_formed((#[trigger] member_views(members@)[k]).1),
                    decreases members.len() - i,
                {
                    assert(member_views(members@)[i as int].1 == members[i as int].1@);
                    if !members[i].1.is_well_formed() {
                        assert(!well_formed(self@->Object_0[i as int].1));
                        return false;
                    }
                    i = i + 1;
                }
                true
            },
            _ => true,
        }
    }
}

/// Whether two values are equal as JSON-shaped values: scalars by what they hold, arrays
/// item by item, and objects member by member, whatever the order of their members.
pub open spec fn same_value(a: SpecValue, b: SpecValue) -> bool
    decreases a,
{
    match (a, b) {
        (SpecValue::Null, SpecValue::Null) => true,
        (SpecValue::Bool(x), SpecValue::Bool(y)) => x == y,
        (SpecValue::Number(x), SpecValue::Number(y)) => x == y,
        (SpecValue::String(x), SpecValue::String(y)) => x == y,
        (SpecValue::Array(xs), SpecValue::Array(ys)) => xs.len() == ys.len() && forall|i: int|
            0 <= i < xs.len() ==> same_value(#[trigger] xs[i], ys[i]),
        (SpecValue::Object(xs), SpecValue::Object(ys)) => xs.len() == ys.len() && forall|i: int|
            0 <= i < xs.len() ==> (member_index(ys, (#[trigger] xs[i]).0, 0) matches Some(k)
                && same_value(xs[i].1, ys[k].1)),
        _ => false,
    }
}

impl Number {
    /// Whether two numbers are the same number.
    pub fn equals(&self, other: &Number) -> (b: bool)
        ensures
            b == (self@ == other@),
    {
        match (self, other) {
            (Number::PosInt(x), Number::PosInt(y)) => *x == *y,
            (Number::NegInt(x), Number::NegInt(y)) => *x == *y,
            (Number::PosInt(x), Number::NegInt(y)) => *y >= 0 && *y as u64 == *x,
            (Number::NegInt(x), Number::PosInt(y)) => *x >= 0 && *x as u64 == *y,
            (Number::Float(x), Number::Float(y)) => same_text(x.as_str(), y.as_str()),
            _ => false,
        }
    }
}

fn find_member_index(members: &Vec<(String, Value)>, key: &str) -> (out: Option<usize>)
    ensures
        match out {
            Some(k) => member_index(member_views(members@), key@, 0) == Some(k as int) && k
                < members.len(),
            None => member_index(member_views(members@), key@, 0) is None,
        },
{
    let mut i: usize = 0;
    while i < members.len()
        invariant
            i <= members.len(),
            member_index(member_views(members@), key@, 0) == member_index(
                member_views(members@),
                key@,
                i as int,
            ),
        decreases members.len() - i,
    {
        if same_text(members[i].0.as_str(), key) {
            return Some(i);
        }
        i = i + 1;
    }
    None
}

impl Value {
    /// Whether two values are equal as JSON-shaped values; the order of the members of an
    /// object does not count.
    pub fn equals(&self, other: &Value) -> (b: bool)
        ensures
            b == same_value(self@, other@),
        decreases self,
    {
        match (self, other) {
            (Value::Null, Value::Null) => true,
            (Value::Bool(x), Value::Bool(y)) => *x == *y,
            (Value::Number(x), Value::Number(y)) => x.equals(y),
            (Value::String(x), Value::String(y)) => same_text(x.as_str(), y.as_str()),
            (Value::Array(xs), Value::Array(ys)) => {
                proof {
                    lemma_array_view(*xs);
                    lemma_array_view(*ys);
                }
                if xs.len() != ys.len() {
                    return false;
                }
                let mut i: usize = 0;
                while i < xs.len()
                    invariant
                        self == Value::Array(*xs),
                        self@ == SpecValue::Array(views(xs@)),
                        other@ == SpecValue::Array(views(ys@)),
                        xs.len() == ys.len(),
                        i <= xs.len(),
                        forall|k: int|
                            0 <= k < i ==> same_value(#[trigger] views(xs@)[k], views(ys@)[k]),
                    decreases xs.len() - i,
                {
                    assert(views(xs@)[i as int] == xs[i as int]@);
                    assert(views(ys@)[i as int] == ys[i as int]@);
                    if !xs[i].equals(&ys[i]) {
                        assert(!same_value(self@->Array_0[i as int], other@->Array_0[i as int]));
                        return false;
                    }
                    i = i + 1;
                }
                true
            },
            (Value::Object(xs), Value::Object(ys)) => {
                proof {
                    lemma_object_view(*xs);
                    lemma_object_view(*ys);
                }
                if xs.len() != ys.len() {
                    return false;
                }
                let mut i: usize = 0;
                while i < xs.len()
                    invariant
                        self == Value::Object(*xs),
                        self@ == SpecValue::Object(member_views(xs@)),
                        other@ == SpecValue::Object(member_views(ys@)),
                        xs.len() == ys.len(),
                        i <= xs.len(),
                        forall|k: int|
                            0 <= k < i ==> (member_index(
                                member_views(ys@),
                                (#[trigger] member_views(xs@)[k]).0,
                                0,
                            ) matches Some(at) && same_value(
                                member_views(xs@)[k].1,
                                member_views(ys@)[at].1,
                            )),
                    decreases xs.len() - i,
                {
                    assert(member_views(xs@)[i as int] == (xs[i as int].0@, xs[i as int].1@));
                    match find_member_index(ys, xs[i].0.as_str()) {
                        None => {
                            assert(member_index(
                                other@->Object_0,
                                self@->Object_0[i as int].0,
                                0,
                            ) is None);
                            return false;
                        },
                        Some(at) => {
                            assert(member_views(ys@)[at as int].1 == ys[at as int].1@);
                            if !xs[i].1.equals(&ys[at].1) {
                                assert(!same_value(
                                    self@->Object_0[i as int].1,
                                    other@->Object_0[at as int].1,
                                ));
                                return false;
                            }
                        },
                    }
                    i = i + 1;
                }
                true
            },
            _ => false,
        }
    }
}

/// A proper value equals itself.
pub proof fn lemma_same_value_reflexive(v: SpecValue)
    requires
        well_formed(v),
    ensures
        same_value(v, v),
    decreases v,
{
    match v {
        SpecValue::Array(items) => {
            assert forall|i: int| 0 <= i < items.len() implies same_value(
                #[trigger] items[i],
                items[i],
            ) by {
                lemma_same_value_reflexive(items[i]);
            }
        },
        SpecValue::Object(members) => {
            assert forall|i: int| 0 <= i < members.len() implies (member_index(
                members,
                (#[trigger] members[i]).0,
                0,
            ) matches Some(k) && same_value(members[i].1, members[k].1)) by {
                lemma_member_index_finds(members, members[i].0, 0, i);
                lemma_same_value_reflexive(members[i].1);
            }
        },
        _ => {},
    }
}

} // verus!
