//! Scope-qualified names and tables keyed by them.
use vstd::prelude::*;

use crate::lexer::string_of;
use crate::util::str_eq;

verus! {

#[derive(Clone, Debug, PartialEq, Eq)]
pub enum QualifiedNameEntry {
    /// An unnamed scope; the number tells such scopes apart.
    Anonymous(usize),
    Named(String),
}

/// An entry with its name as characters.
pub enum EntryView {
    Anonymous(usize),
    Named(Seq<char>),
}

impl View for QualifiedNameEntry {
    type V = EntryView;

    open spec fn view(&self) -> EntryView {
        match self {
            QualifiedNameEntry::Anonymous(i) => EntryView::Anonymous(*i),
            QualifiedNameEntry::Named(s) => EntryView::Named(s@),
        }
    }
}

/// Decimal digits of `n`.
pub open spec fn decimal(n: nat) -> Seq<char>
    decreases n,
{
    if n < 10 {
        seq![(n + '0' as nat) as char]
    } else {
        decimal(n / 10).push(((n % 10) + '0' as nat) as char)
    }
}

/// How an entry reads: its name, or `<anonymous N>`.
pub open spec fn entry_text(e: EntryView) -> Seq<char> {
    match e {
        EntryView::Anonymous(i) => "<anonymous "@ + decimal(i as nat) + ">"@,
        EntryView::Named(s) => s,
    }
}

/// How a path reads: its entries joined by `.`.
pub open spec fn path_text(p: Seq<EntryView>) -> Seq<char>
    decreases p.len(),
{
    if p.len() == 0 {
        seq![]
    } else if p.len() == 1 {
        entry_text(p[0])
    } else {
        path_text(p.drop_last()) + "."@ + entry_text(p.last())
    }
}

fn push_str(out: &mut Vec<char>, s: &str)
    ensures
        final(out)@ == old(out)@ + s@,
{
    let n = s.unicode_len();
    let mut i: usize = 0;
    let ghost start = out@;
    while i < n
        invariant
            n == s@.len(),
            i <= n,
            out@ == start + s@.subrange(0, i as int),
        decreases n - i,
    {
        out.push(s.get_char(i));
        i = i + 1;
        assert(out@ =~= start + s@.subrange(0, i as int));
    }
    assert(s@.subrange(0, n as int) =~= s@);
}

fn push_decimal(out: &mut Vec<char>, n: usize)
    ensures
        final(out)@ == old(out)@ + decimal(n as nat),
    decreases n,
{
    if n >= 10 {
        push_decimal(out, n / 10);
    }
    let d = (n % 10) as u32;
    let c = char_of_digit(d);
    out.push(c);
    proof {
        if n < 10 {
            assert(decimal(n as nat) =~= seq![c]);
        }
        assert(old(out)@ + decimal(n as nat) =~= final(out)@) by {
            if n >= 10 {
                assert(decimal(n as nat) == decimal((n / 10) as nat).push(c));
            }
        }
    }
}

fn char_of_digit(d: u32) -> (c: char)
    requires
        d < 10,
    ensures
        c == (d + '0' as nat) as char,
{
    if d == 0 { '0' } else if d == 1 { '1' } else if d == 2 { '2' } else if d == 3 { '3' } else if d == 4 { '4' } else if d == 5 { '5' } else if d == 6 { '6' } else if d == 7 { '7' } else if d == 8 { '8' } else { '9' }
}

/// Path of scope entries from the outermost.
#[derive(Clone, Debug)]
pub struct QualifiedName(Vec<QualifiedNameEntry>);

impl View for QualifiedName {
    type V = Seq<EntryView>;

    closed spec fn view(&self) -> Seq<EntryView> {
        self.0@.map_values(|e: QualifiedNameEntry| e@)
    }
}

impl QualifiedName {
    pub fn new() -> (r: QualifiedName)
        ensures
            r@ == Seq::<EntryView>::empty(),
    {
        let r = QualifiedName(Vec::new());
        assert(r@ =~= Seq::<EntryView>::empty());
        r
    }

    /// A name of one anonymous entry.
    pub fn new_anonymous(id: usize) -> (r: QualifiedName)
        ensures
            r@ == seq![EntryView::Anonymous(id)],
    {
        let mut v: Vec<QualifiedNameEntry> = Vec::new();
        v.push(QualifiedNameEntry::Anonymous(id));
        let r = QualifiedName(v);
        assert(r@ =~= seq![EntryView::Anonymous(id)]);
        r
    }

    pub fn push_name(&mut self, name: String)
        ensures
            final(self)@ == old(self)@.push(EntryView::Named(name@)),
    {
        let ghost n = name@;
        self.0.push(QualifiedNameEntry::Named(name));
        assert(self@ =~= old(self)@.push(EntryView::Named(n)));
    }

    pub fn push_anonymous(&mut self, id: usize)
        ensures
            final(self)@ == old(self)@.push(EntryView::Anonymous(id)),
    {
        self.0.push(QualifiedNameEntry::Anonymous(id));
        assert(self@ =~= old(self)@.push(EntryView::Anonymous(id)));
    }

    /// Drop the innermost entry, if any.
    pub fn pop(&mut self)
        ensures
            old(self)@.len() > 0 ==> final(self)@ == old(self)@.drop_last(),
            old(self)@.len() == 0 ==> final(self)@ == old(self)@,
    {
        if self.0.len() > 0 {
            self.0.pop();
            assert(self@ =~= old(self)@.drop_last());
        }
    }

    /// The name as text: entries joined by `.`, anonymous ones written
    /// `<anonymous N>`.
    pub fn to_text(&self) -> (r: String)
        ensures
            r@ == path_text(self@),
    {
        let mut out: Vec<char> = Vec::new();
        let mut i: usize = 0;
        while i < self.0.len()
            invariant
                i <= self@.len(),
                self@.len() == self.0@.len(),
                out@ == path_text(self@.subrange(0, i as int)),
            decreases self.0@.len() - i,
        {
            let ghost before = out@;
            if i > 0 {
                push_str(&mut out, ".");
            }
            match &self.0[i] {
                QualifiedNameEntry::Anonymous(id) => {
                    push_str(&mut out, "<anonymous ");
                    push_decimal(&mut out, *id);
                    push_str(&mut out, ">");
                },
                QualifiedNameEntry::Named(s) => {
                    push_str(&mut out, s.as_str());
                },
            }
            proof {
                let p = self@.subrange(0, i + 1);
                assert(p.drop_last() =~= self@.subrange(0, i as int));
                assert(p.last() == self@[i as int]);
                assert(self@[i as int] == self.0@[i as int]@);
                if i == 0 {
                    assert(out@ =~= entry_text(p[0]));
                } else {
                    assert(out@ =~= before + "."@ + entry_text(p.last()));
                }
            }
            i = i + 1;
        }
        assert(self@.subrange(0, self@.len() as int) =~= self@);
        string_of(&out, 0, out.len())
    }

    /// Whether two names hold the same entries.
    pub fn same_as(&self, other: &QualifiedName) -> (r: bool)
        ensures
            r == (self@ == other@),
    {
        if self.0.len() != other.0.len() {
            assert(self@.len() != other@.len());
            return false;
        }
        let mut i: usize = 0;
        while i < self.0.len()
            invariant
                self.0@.len() == other.0@.len(),
                i <= self.0@.len(),
                forall|k: int| 0 <= k < i ==> self@[k] == other@[k],
            decreases self.0@.len() - i,
        {
            let same = match (&self.0[i], &other.0[i]) {
                (QualifiedNameEntry::Anonymous(a), QualifiedNameEntry::Anonymous(b)) => *a == *b,
                (QualifiedNameEntry::Named(a), QualifiedNameEntry::Named(b)) => str_eq(a.as_str(), b.as_str()),
                _ => false,
            };
            if !same {
                assert(self@[i as int] != other@[i as int]);
                return false;
            }
            i = i + 1;
        }
        assert(self@ =~= other@);
        true
    }
}


/// Values keyed by qualified name, each name at most once.
pub struct AssemblerTable<T> {
    names: Vec<QualifiedName>,
    values: Vec<T>,
}

impl<T> AssemblerTable<T> {
    pub closed spec fn wf(&self) -> bool {
        &&& self.names@.len() == self.values@.len()
        &&& forall|i: int, j: int| 0 <= i < j < self.names@.len() ==> (#[trigger] self.names@[i])@ != (#[trigger] self.names@[j])@
    }

    /// Keys in insertion order.
    pub closed spec fn keys(&self) -> Seq<Seq<EntryView>> {
        self.names@.map_values(|n: QualifiedName| n@)
    }

    /// Value at each position, in the order of `keys`.
    pub closed spec fn values(&self) -> Seq<T> {
        self.values@
    }

    pub fn new() -> (r: AssemblerTable<T>)
        ensures
            r.wf(),
            r.keys().len() == 0,
    {
        let r = AssemblerTable { names: Vec::new(), values: Vec::new() };
        assert(r.keys() =~= Seq::<Seq<EntryView>>::empty());
        r
    }

    /// Position of `name` among the keys.
    pub fn position(&self, name: &QualifiedName) -> (r: Option<usize>)
        requires
            self.wf(),
        ensures
            r matches Some(i) ==> i < self.keys().len() && self.keys()[i as int] == name@,
            r is None ==> !self.keys().contains(name@),
    {
        let mut i: usize = 0;
        while i < self.names.len()
            invariant
                self.wf(),
                i <= self.names@.len(),
                forall|k: int| 0 <= k < i ==> self.keys()[k] != name@,
            decreases self.names@.len() - i,
        {
            if self.names[i].same_as(name) {
                return Some(i);
            }
            i = i + 1;
        }
        None
    }

    /// Value stored under `name`.
    pub fn get(&self, name: &QualifiedName) -> (r: Option<&T>)
        requires
            self.wf(),
        ensures
            r matches Some(v) ==> exists|i: int| 0 <= i < self.keys().len() && self.keys()[i] == name@ && *v == self.values()[i],
            r is None ==> !self.keys().contains(name@),
    {
        match self.position(name) {
            Some(i) => Some(&self.values[i]),
            None => None,
        }
    }

    /// Store `value` under `name`, in place of any value already there.
    pub fn insert(&mut self, name: QualifiedName, value: T)
        requires
            old(self).wf(),
        ensures
            final(self).wf(),
            old(self).keys().contains(name@) ==> final(self).keys() == old(self).keys(),
            !old(self).keys().contains(name@) ==> final(self).keys() == old(self).keys().push(name@),
            exists|i: int| 0 <= i < final(self).keys().len() && final(self).keys()[i] == name@ && final(self).values()[i] == value,
    {
        match self.position(&name) {
            Some(i) => {
                self.values.set(i, value);
                assert(self.keys()[i as int] == name@);
            },
            None => {
                let ghost n = name@;
                self.names.push(name);
                self.values.push(value);
                proof {
                    assert(self.keys() =~= old(self).keys().push(n));
                    let len = self.names@.len();
                    assert forall|i: int, j: int| 0 <= i < j < len implies (#[trigger] self.names@[i])@ != (#[trigger] self.names@[j])@ by {
                        if j == len - 1 {
                            assert(old(self).keys()[i] == self.names@[i]@);
                        } else {
                            assert(old(self).names@[i] == self.names@[i]);
                            assert(old(self).names@[j] == self.names@[j]);
                        }
                    }
                    assert(self.keys()[len - 1] == n);
                }
            },
        }
    }
}

} // verus!
