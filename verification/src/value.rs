//! Semi-structured values, as JSON writes them, and their mathematical
//! model. Contracts speak of the model; the lookups that the rest of the
//! library is built on are defined on it.

use vstd::prelude::*;

verus! {

/// A number: a non-negative integer, a negative integer, or a double held
/// as its IEEE-754 binary64 bit pattern.
#[derive(Clone, Copy, Debug, PartialEq, Eq, Structural)]
pub enum Number {
    PosInt(u64),
    NegInt(i64),
    Float(u64),
}

/// Whether the binary64 bit pattern `bits` is a number, and not an infinity
/// or a NaN: those have all eleven bits of the exponent set.
pub open spec fn is_finite_bits(bits: u64) -> bool {
    (bits / 0x10_0000_0000_0000) % 0x800 != 0x7ff
}

impl Number {
    /// Every number has one form only: an integer is held as `NegInt` only
    /// where it is negative, and a double is finite.
    pub open spec fn wf(self) -> bool {
        match self {
            Number::PosInt(_) => true,
            Number::NegInt(n) => n < 0,
            Number::Float(bits) => is_finite_bits(bits),
        }
    }

    /// Whether the number has the one form that `wf` asks for.
    pub fn is_well_formed(&self) -> (r: bool)
        ensures
            r == self.wf(),
    {
        match self {
            Number::PosInt(_) => true,
            Number::NegInt(n) => *n < 0,
            Number::Float(bits) => (*bits / 0x10_0000_0000_0000) % 0x800 != 0x7ff,
        }
    }

    /// The integer `n` as a number.
    pub open spec fn of_signed(n: i64) -> Number {
        if n < 0 {
            Number::NegInt(n)
        } else {
            Number::PosInt(n as u64)
        }
    }

    /// The integer `n` as a number.
    pub fn from_signed(n: i64) -> (r: Number)
        ensures
            r == Number::of_signed(n),
            r.wf(),
    {
        if n < 0 {
            Number::NegInt(n)
        } else {
            Number::PosInt(n as u64)
        }
    }
}

/// A semi-structured value: metadata, rule sets and mapped output all have
/// this shape. The members of an object keep the order in which they were
/// inserted.
#[derive(Debug, PartialEq, Eq)]
pub enum GenericValue {
    Null,
    Bool(bool),
    Number(Number),
    Text(String),
    Array(Vec<GenericValue>),
    Object(Vec<(String, GenericValue)>),
}

/// The mathematical model of a [`GenericValue`].
pub enum Tree {
    Null,
    Bool(bool),
    Number(Number),
    Text(Seq<char>),
    Array(Seq<Tree>),
    Object(Seq<(Seq<char>, Tree)>),
}

/// No two members have the same name.
pub open spec fn distinct_names(members: Seq<(Seq<char>, Tree)>) -> bool {
    forall|i: int, j: int|
        0 <= i < j < members.len() ==> (#[trigger] members[i]).0 != (#[trigger] members[j]).0
}

/// The value of the first member of `members` that is called `key`.
pub open spec fn find_member(members: Seq<(Seq<char>, Tree)>, key: Seq<char>) -> Option<Tree>
    decreases members.len(),
{
    if members.len() == 0 {
        None
    } else if members[0].0 == key {
        Some(members[0].1)
    } else {
        find_member(members.skip(1), key)
    }
}

/// Member `i` of `members` is called `key`, and none before it is.
pub open spec fn is_first_member(members: Seq<(Seq<char>, Tree)>, key: Seq<char>, i: int) -> bool {
    &&& 0 <= i < members.len()
    &&& members[i].0 == key
    &&& forall|j: int| 0 <= j < i ==> (#[trigger] members[j]).0 != key
}

/// `find_member` gives the value of the first member of that name, and
/// nothing exactly where no member has the name.
pub proof fn lemma_find_member(members: Seq<(Seq<char>, Tree)>, key: Seq<char>)
    ensures
        match find_member(members, key) {
            Some(v) => exists|i: int| #[trigger]
                is_first_member(members, key, i) && members[i].1 == v,
            None => forall|i: int| 0 <= i < members.len() ==> (#[trigger] members[i]).0 != key,
        },
    decreases members.len(),
{
    if members.len() == 0 {
    } else if members[0].0 == key {
        assert(is_first_member(members, key, 0));
    } else {
        let rest = members.skip(1);
        lemma_find_member(rest, key);
        match find_member(rest, key) {
            Some(v) => {
                let i = choose|i: int| #[trigger]
                    is_first_member(rest, key, i) && rest[i].1 == v;
                assert(rest[i] == members[i + 1]);
                assert forall|j: int| 0 <= j < i + 1 implies (#[trigger] members[j]).0 != key by {
                    if j > 0 {
                        assert(rest[j - 1] == members[j]);
                    }
                }
                assert(is_first_member(members, key, i + 1));
            },
            None => {
                assert forall|i: int| 0 <= i < members.len() implies (#[trigger] members[i]).0
                    != key by {
                    if i > 0 {
                        assert(rest[i - 1] == members[i]);
                    }
                }
            },
        }
    }
}

/// The first member of that name is what `find_member` gives.
pub proof fn lemma_find_member_at(members: Seq<(Seq<char>, Tree)>, key: Seq<char>, i: int)
    requires
        is_first_member(members, key, i),
    ensures
        find_member(members, key) == Some(members[i].1),
    decreases members.len(),
{
    if i > 0 {
        let rest = members.skip(1);
        assert(members[0].0 != key);
        assert(rest[i - 1] == members[i]);
        assert forall|j: int| 0 <= j < i - 1 implies (#[trigger] rest[j]).0 != key by {
            assert(rest[j] == members[j + 1]);
        }
        lemma_find_member_at(rest, key, i - 1);
    }
}

/// No member of that name: `find_member` gives nothing.
pub proof fn lemma_find_member_none(members: Seq<(Seq<char>, Tree)>, key: Seq<char>)
    requires
        forall|i: int| 0 <= i < members.len() ==> (#[trigger] members[i]).0 != key,
    ensures
        find_member(members, key) is None,
    decreases members.len(),
{
    if members.len() > 0 {
        let rest = members.skip(1);
        assert(members[0].0 != key);
        assert forall|j: int| 0 <= j < rest.len() implies (#[trigger] rest[j]).0 != key by {
            assert(rest[j] == members[j + 1]);
        }
        lemma_find_member_none(rest, key);
    }
}

impl Tree {
    /// The value is one that a JSON document can hold: within an object no
    /// two members have the same name, and every number is well formed.
    pub open spec fn wf(self) -> bool
        decreases self,
    {
        match self {
            Tree::Number(n) => n.wf(),
            Tree::Array(items) => forall|i: int| 0 <= i < items.len() ==> (#[trigger] items[i]).wf(),
            Tree::Object(members) => {
                &&& distinct_names(members)
                &&& forall|i: int| 0 <= i < members.len() ==> (#[trigger] members[i]).1.wf()
            },
            _ => true,
        }
    }

    /// The value of the member called `key`, where this is an object that
    /// has one; of the first, where it has several.
    pub open spec fn member(self, key: Seq<char>) -> Option<Tree> {
        match self {
            Tree::Object(members) => find_member(members, key),
            _ => None,
        }
    }

    /// The text, where this is one.
    pub open spec fn text(self) -> Option<Seq<char>> {
        match self {
            Tree::Text(s) => Some(s),
            _ => None,
        }
    }
}

/// The items of a well-formed array are well formed.
pub proof fn lemma_array_wf(items: Seq<Tree>, i: int)
    requires
        Tree::Array(items).wf(),
        0 <= i < items.len(),
    ensures
        items[i].wf(),
{
    assert(Tree::Array(items)->Array_0[i].wf());
}

/// The members of a well-formed object are well formed and differ in name.
pub proof fn lemma_object_wf(members: Seq<(Seq<char>, Tree)>)
    requires
        Tree::Object(members).wf(),
    ensures
        distinct_names(members),
        forall|i: int| 0 <= i < members.len() ==> (#[trigger] members[i]).1.wf(),
{
    let m = Tree::Object(members)->Object_0;
    assert(distinct_names(m));
    assert forall|i: int| 0 <= i < members.len() implies (#[trigger] members[i]).1.wf() by {
        assert(m[i].1.wf());
    }
}

/// A member of a well-formed value is well formed.
pub proof fn lemma_member_wf(t: Tree, key: Seq<char>)
    requires
        t.wf(),
    ensures
        t.member(key) matches Some(v) ==> v.wf(),
{
    if let Tree::Object(members) = t {
        lemma_find_member(members, key);
        if let Some(v) = find_member(members, key) {
            let i = choose|i: int| #[trigger] is_first_member(members, key, i) && members[i].1 == v;
            assert(members[i].1.wf());
        }
    }
}

/// In a well-formed object the member of a name is the only one of that
/// name.
pub proof fn lemma_member_unique(members: Seq<(Seq<char>, Tree)>, i: int)
    requires
        distinct_names(members),
        0 <= i < members.len(),
    ensures
        find_member(members, members[i].0) == Some(members[i].1),
{
    assert forall|j: int| 0 <= j < i implies (#[trigger] members[j]).0 != members[i].0 by {}
    lemma_find_member_at(members, members[i].0, i);
}

/// The models of the items of an array, in order.
pub open spec fn array_view(items: Seq<GenericValue>) -> Seq<Tree>
    decreases items,
{
    Seq::new(
        items.len(),
        |i: int|
            if 0 <= i < items.len() {
                items[i].view()
            } else {
                Tree::Null
            },
    )
}

/// The models of the members of an object, in order.
pub open spec fn members_view(members: Seq<(String, GenericValue)>) -> Seq<(Seq<char>, Tree)>
    decreases members,
{
    Seq::new(
        members.len(),
        |i: int|
            if 0 <= i < members.len() {
                (members[i].0@, members[i].1.view())
            } else {
                (Seq::empty(), Tree::Null)
            },
    )
}

impl View for GenericValue {
    type V = Tree;

    open spec fn view(&self) -> Tree
        decreases self,
    {
        match self {
            GenericValue::Null => Tree::Null,
            GenericValue::Bool(b) => Tree::Bool(*b),
            GenericValue::Number(n) => Tree::Number(*n),
            GenericValue::Text(s) => Tree::Text(s@),
            GenericValue::Array(items) => Tree::Array(array_view(items@)),
            GenericValue::Object(members) => Tree::Object(members_view(members@)),
        }
    }
}

/// The model of a value that may be absent.
pub open spec fn option_view(o: Option<GenericValue>) -> Option<Tree> {
    match o {
        Some(v) => Some(v@),
        None => None,
    }
}

/// The model of a borrowed value that may be absent.
pub open spec fn option_ref_view(o: Option<&GenericValue>) -> Option<Tree> {
    match o {
        Some(v) => Some(v@),
        None => None,
    }
}

impl Clone for GenericValue {
    /// An independent copy of the value.
    fn clone(&self) -> (r: GenericValue)
        ensures
            r@ == self@,
    {
        self.duplicate()
    }
}

impl GenericValue {
    /// The value of the member called `key`, where this is an object that
    /// has one.
    pub fn get(&self, key: &str) -> (r: Option<&GenericValue>)
        ensures
            option_ref_view(r) == self@.member(key@),
    {
        match self {
            GenericValue::Object(members) => {
                let wanted: String = key.to_owned();
                let mut i: usize = 0;
                while i < members.len()
                    invariant
                        i <= members.len(),
                        wanted@ == key@,
                        self@ == Tree::Object(members_view(members@)),
                        forall|j: int| 0 <= j < i ==> (#[trigger] members@[j]).0@ != key@,
                    decreases members.len() - i,
                {
                    if members[i].0 == wanted {
                        proof {
                            let m = members_view(members@);
                            assert forall|j: int| 0 <= j < i implies (#[trigger] m[j]).0
                                != key@ by {
                                assert(members@[j].0@ != key@);
                            }
                            assert(is_first_member(m, key@, i as int));
                            lemma_find_member_at(m, key@, i as int);
                        }
                        return Some(&members[i].1);
                    }
                    i = i + 1;
                }
                proof {
                    let m = members_view(members@);
                    assert forall|j: int| 0 <= j < m.len() implies (#[trigger] m[j]).0
                        != key@ by {
                        assert(members@[j].0@ != key@);
                    }
                    lemma_find_member_none(m, key@);
                }
                None
            },
            _ => None,
        }
    }

    /// Whether this is null.
    pub fn is_null(&self) -> (r: bool)
        ensures
            r == (self@ is Null),
    {
        match self {
            GenericValue::Null => true,
            _ => false,
        }
    }

    /// Whether this is an object.
    pub fn is_object(&self) -> (r: bool)
        ensures
            r == (self@ is Object),
    {
        match self {
            GenericValue::Object(_) => true,
            _ => false,
        }
    }

    /// The text, where this is one.
    pub fn as_str(&self) -> (r: Option<&str>)
        ensures
            match r {
                Some(s) => self@.text() == Some(s@),
                None => self@.text() is None,
            },
    {
        match self {
            GenericValue::Text(s) => Some(s.as_str()),
            _ => None,
        }
    }

    /// The items, where this is an array.
    pub fn as_array(&self) -> (r: Option<&Vec<GenericValue>>)
        ensures
            match r {
                Some(items) => self@ == Tree::Array(array_view(items@)),
                None => !(self@ is Array),
            },
    {
        match self {
            GenericValue::Array(items) => Some(items),
            _ => None,
        }
    }

    /// The members, where this is an object.
    pub fn as_object(&self) -> (r: Option<&Vec<(String, GenericValue)>>)
        ensures
            match r {
                Some(members) => self@ == Tree::Object(members_view(members@)),
                None => !(self@ is Object),
            },
    {
        match self {
            GenericValue::Object(members) => Some(members),
            _ => None,
        }
    }

    /// Whether the value is one that a JSON document can hold.
    pub fn is_well_formed(&self) -> (r: bool)
        ensures
            r == self@.wf(),
        decreases self,
    {
        match self {
            GenericValue::Number(n) => n.is_well_formed(),
            GenericValue::Array(items) => {
                let mut i: usize = 0;
                while i < items.len()
                    invariant
                        i <= items.len(),
                        *self == GenericValue::Array(*items),
                        self@ == Tree::Array(array_view(items@)),
                        forall|j: int| 0 <= j < i ==> (#[trigger] items@[j])@.wf(),
                    decreases items.len() - i,
                {
                    assert(self->Array_0 == *items);
                    if !items[i].is_well_formed() {
                        proof {
                            let trees = self@->Array_0;
                            assert(trees[i as int] == items@[i as int]@);
                        }
                        return false;
                    }
                    i = i + 1;
                }
                assert forall|j: int| 0 <= j < array_view(items@).len() implies (
                #[trigger] array_view(items@)[j]).wf() by {
                    assert(items@[j]@.wf());
                }
                true
            },
            GenericValue::Object(members) => {
                let ghost m = members_view(members@);
                let mut i: usize = 0;
                while i < members.len()
                    invariant
                        i <= members.len(),
                        m == members_view(members@),
                        *self == GenericValue::Object(*members),
                        self@ == Tree::Object(m),
                        forall|j: int| 0 <= j < i ==> (#[trigger] m[j]).1.wf(),
                        forall|a: int, b: int|
                            0 <= a < b < m.len() && a < i ==> (#[trigger] m[a]).0 != (
                            #[trigger] m[b]).0,
                    decreases members.len() - i,
                {
                    assert(self->Object_0 == *members);
                    assert(m[i as int] == (members@[i as int].0@, members@[i as int].1@));
                    if !members[i].1.is_well_formed() {
                        return false;
                    }
                    let mut j: usize = i + 1;
                    while j < members.len()
                        invariant
                            i < j <= members.len(),
                            m == members_view(members@),
                            self@ == Tree::Object(m),
                            forall|b: int| i < b < j ==> (#[trigger] m[b]).0 != m[i as int].0,
                        decreases members.len() - j,
                    {
                        assert(m[j as int] == (members@[j as int].0@, members@[j as int].1@));
                        assert(m[i as int] == (members@[i as int].0@, members@[i as int].1@));
                        if members[i].0 == members[j].0 {
                            assert(!distinct_names(m));
                            return false;
                        }
                        j = j + 1;
                    }
                    i = i + 1;
                }
                assert(distinct_names(m));
                true
            },
            _ => true,
        }
    }

    /// The number `n`.
    pub fn unsigned(n: u64) -> (r: GenericValue)
        ensures
            r@ == Tree::Number(Number::PosInt(n)),
            r@.wf(),
    {
        GenericValue::Number(Number::PosInt(n))
    }

    /// The number `n`.
    pub fn signed(n: i64) -> (r: GenericValue)
        ensures
            r@ == Tree::Number(Number::of_signed(n)),
            r@.wf(),
    {
        GenericValue::Number(Number::from_signed(n))
    }

    /// A text value that holds the characters of `s`.
    pub fn text(s: &str) -> (r: GenericValue)
        ensures
            r@ == Tree::Text(s@),
            r@.wf(),
    {
        GenericValue::Text(s.to_owned())
    }

    /// An independent copy of the value.
    pub fn duplicate(&self) -> (r: GenericValue)
        ensures
            r@ == self@,
        decreases self,
    {
        match self {
            GenericValue::Null => GenericValue::Null,
            GenericValue::Bool(b) => GenericValue::Bool(*b),
            GenericValue::Number(n) => GenericValue::Number(*n),
            GenericValue::Text(s) => GenericValue::Text(s.clone()),
            GenericValue::Array(items) => {
                let mut out: Vec<GenericValue> = Vec::new();
                let mut i: usize = 0;
                while i < items.len()
                    invariant
                        i <= items.len(),
                        out.len() == i,
                        *self == GenericValue::Array(*items),
                        forall|j: int| 0 <= j < i ==> out@[j]@ == items@[j]@,
                    decreases items.len() - i,
                {
                    assert(self->Array_0 == *items);
                    out.push(items[i].duplicate());
                    i = i + 1;
                }
                let r = GenericValue::Array(out);
                assert(r@->Array_0 =~= self@->Array_0);
                r
            },
            GenericValue::Object(members) => {
                let mut out: Vec<(String, GenericValue)> = Vec::new();
                let mut i: usize = 0;
                while i < members.len()
                    invariant
                        i <= members.len(),
                        out.len() == i,
                        *self == GenericValue::Object(*members),
                        forall|j: int|
                            0 <= j < i ==> out@[j].0@ == members@[j].0@ && out@[j].1@
                                == members@[j].1@,
                    decreases members.len() - i,
                {
                    assert(self->Object_0 == *members);
                    out.push((members[i].0.clone(), members[i].1.duplicate()));
                    i = i + 1;
                }
                let r = GenericValue::Object(out);
                assert(r@->Object_0 =~= self@->Object_0);
                r
            },
        }
    }
}

} // verus!
