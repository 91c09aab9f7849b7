//! The instruction set definition: argument types, encoding pieces, the
//! bit pattern of each instruction and the table of opcode prefixes.
use vstd::prelude::*;

use crate::lexer::string_of;
use crate::util::str_eq;

verus! {

/// Bits of an instruction word.
pub const INSTRUCTION_BITS: usize = 16;

/// Bits of the opcode prefix.
pub const OPCODE_BITS: usize = 7;

#[derive(Clone, Copy, Debug, PartialEq, Eq, Structural)]
pub enum InstructionEncodingArgType {
    Gpr,
    ControlRegister,
    Immediate { signed: bool, bits: usize },
}

impl InstructionEncodingArgType {
    pub open spec fn spec_bits(self) -> nat {
        match self {
            InstructionEncodingArgType::Gpr => 3,
            InstructionEncodingArgType::ControlRegister => 3,
            InstructionEncodingArgType::Immediate { bits, .. } => bits as nat,
        }
    }

    /// Width of the argument's field.
    pub fn bits(&self) -> (r: usize)
        ensures
            r == self.spec_bits(),
    {
        match self {
            InstructionEncodingArgType::Gpr => 3,
            InstructionEncodingArgType::ControlRegister => 3,
            InstructionEncodingArgType::Immediate { bits, .. } => *bits,
        }
    }
}

#[derive(Clone, Debug, PartialEq, Eq)]
pub enum InstructionDefinitionError {
    /// A type that is not `gpr`, `cr`, `s<bits>` or `u<bits>`.
    BadArgumentType(String),
    /// An encoding piece names no argument of the instruction.
    UndefinedArgument { mnemonic: String, arg_name: String },
    /// The encoding is not sixteen bits wide.
    WrongEncodingLength { mnemonic: String, bits: usize },
    /// Two instructions claim the same opcode prefix.
    OpcodeCollision { opcode: usize, first: usize, second: usize },
    /// A `$name` token with no such substitution.
    BadSubstitution(String),
    /// A microinstruction name outside the vocabulary.
    UnknownMicroinstruction(String),
}

/// Decimal value of a non-empty run of digits.
pub open spec fn decimal_value(s: Seq<char>) -> int
    decreases s.len(),
{
    if s.len() == 0 {
        0
    } else {
        decimal_value(s.drop_last()) * 10 + (s.last() as int - '0' as int)
    }
}

pub open spec fn is_decimal(s: Seq<char>) -> bool {
    s.len() > 0 && forall|i: int| 0 <= i < s.len() ==> '0' <= #[trigger] s[i] <= '9'
}

/// Argument type named by a string: `gpr`, `cr`, or `s` or `u` followed by
/// a decimal width.
pub open spec fn arg_type_of(s: Seq<char>) -> Option<InstructionEncodingArgType> {
    if s == seq!['g', 'p', 'r'] {
        Some(InstructionEncodingArgType::Gpr)
    } else if s == seq!['c', 'r'] {
        Some(InstructionEncodingArgType::ControlRegister)
    } else if s.len() >= 2 && (s[0] == 's' || s[0] == 'u') && is_decimal(s.drop_first())
        && decimal_value(s.drop_first()) <= usize::MAX {
        Some(
            InstructionEncodingArgType::Immediate {
                signed: s[0] == 's',
                bits: decimal_value(s.drop_first()) as usize,
            },
        )
    } else {
        None
    }
}

proof fn lemma_decimal_nonneg(s: Seq<char>)
    requires
        forall|i: int| 0 <= i < s.len() ==> '0' <= #[trigger] s[i] <= '9',
    ensures
        decimal_value(s) >= 0,
    decreases s.len(),
{
    if s.len() > 0 {
        lemma_decimal_nonneg(s.drop_last());
    }
}

/// Argument type of a definition string; anything else is `BadArgumentType`.
pub fn parse_arg_type(s: &str) -> (r: Result<InstructionEncodingArgType, InstructionDefinitionError>)
    ensures
        match arg_type_of(s@) {
            Some(t) => r == Ok::<InstructionEncodingArgType, InstructionDefinitionError>(t),
            None => r matches Err(InstructionDefinitionError::BadArgumentType(n)) && n@ == s@,
        },
{
    let n = s.unicode_len();
    if n == 3 && s.get_char(0) == 'g' && s.get_char(1) == 'p' && s.get_char(2) == 'r' {
        assert(s@ =~= seq!['g', 'p', 'r']);
        return Ok(InstructionEncodingArgType::Gpr);
    }
    if n == 2 && s.get_char(0) == 'c' && s.get_char(1) == 'r' {
        assert(s@ =~= seq!['c', 'r']);
        return Ok(InstructionEncodingArgType::ControlRegister);
    }
    proof {
        if s@ == seq!['g', 'p', 'r'] {
            assert(s@[0] == 'g');
        }
        if s@ == seq!['c', 'r'] {
            assert(s@[0] == 'c');
        }
    }
    if n < 2 {
        return Err(InstructionDefinitionError::BadArgumentType(s.to_owned()));
    }
    let first = s.get_char(0);
    if first != 's' && first != 'u' {
        return Err(InstructionDefinitionError::BadArgumentType(s.to_owned()));
    }
    let ghost rest = s@.drop_first();
    proof {
        assert(s@[0] == first);
        assert(seq!['g', 'p', 'r'][0] == 'g');
        assert(seq!['c', 'r'][0] == 'c');
    }
    let mut value: usize = 0;
    let mut i: usize = 1;
    while i < n
        invariant
            n == s@.len(),
            1 <= i <= n,
            rest == s@.drop_first(),
            s@[0] == first,
            first == 's' || first == 'u',
            n >= 2,
            forall|k: int| 0 <= k < i - 1 ==> '0' <= #[trigger] rest[k] <= '9',
            value as int == decimal_value(rest.subrange(0, i - 1)),
        decreases n - i,
    {
        let c = s.get_char(i);
        proof {
            assert(rest.subrange(0, i as int).drop_last() =~= rest.subrange(0, i - 1));
            assert(rest.subrange(0, i as int).last() == c);
        }
        if c < '0' || c > '9' {
            proof {
                assert(rest[i - 1] == c);
                assert(!is_decimal(rest));
                assert(s@[0] == first);
                assert(seq!['g', 'p', 'r'][0] == 'g');
                assert(seq!['c', 'r'][0] == 'c');
            }
            return Err(InstructionDefinitionError::BadArgumentType(s.to_owned()));
        }
        let d = (c as u32 - '0' as u32) as usize;
        match value.checked_mul(10) {
            Some(m) => match m.checked_add(d) {
                Some(v) => {
                    value = v;
                },
                None => {
                    proof {
                        lemma_decimal_too_big(rest, i as int);
                    }
                    return Err(InstructionDefinitionError::BadArgumentType(s.to_owned()));
                },
            },
            None => {
                proof {
                    lemma_decimal_nonneg(rest.subrange(0, i - 1));
                    lemma_decimal_too_big(rest, i as int);
                }
                return Err(InstructionDefinitionError::BadArgumentType(s.to_owned()));
            },
        }
        i = i + 1;
    }
    proof {
        assert(rest.subrange(0, n - 1) =~= rest);
    }
    Ok(InstructionEncodingArgType::Immediate { signed: first == 's', bits: value })
}

/// Once a prefix of the digits is too large, so is the whole run.
proof fn lemma_decimal_too_big(s: Seq<char>, n: int)
    requires
        1 <= n <= s.len(),
        forall|k: int| 0 <= k < n - 1 ==> '0' <= #[trigger] s[k] <= '9',
        decimal_value(s.subrange(0, n)) > usize::MAX || decimal_value(s.subrange(0, n - 1)) * 10 > usize::MAX,
        '0' <= s[n - 1] <= '9',
    ensures
        !(is_decimal(s) && decimal_value(s) <= usize::MAX),
    decreases s.len() - n,
{
    assert(s.subrange(0, n).drop_last() =~= s.subrange(0, n - 1));
    lemma_decimal_nonneg(s.subrange(0, n - 1));
    if is_decimal(s) {
        if n < s.len() {
            assert(s.subrange(0, n + 1).drop_last() =~= s.subrange(0, n));
            lemma_decimal_nonneg(s.subrange(0, n));
            assert(decimal_value(s.subrange(0, n)) > usize::MAX);
            assert(decimal_value(s.subrange(0, n)) * 10 > usize::MAX) by (nonlinear_arith)
                requires decimal_value(s.subrange(0, n)) > usize::MAX;
            lemma_decimal_too_big(s, n + 1);
        } else {
            assert(s.subrange(0, n) =~= s);
        }
    }
}

/// One piece of an instruction's encoding.
#[derive(Clone, Debug, PartialEq, Eq)]
pub enum InstructionEncodingPiece {
    /// Fixed bits, each `0` or `1`.
    Literal(String),
    /// That many ignored bits.
    Ignored(usize),
    /// The field of the named argument.
    Arg(String),
}

pub open spec fn all_bits(s: Seq<char>) -> bool {
    forall|i: int| 0 <= i < s.len() ==> (#[trigger] s[i] == '0' || s[i] == '1')
}

pub open spec fn all_x(s: Seq<char>) -> bool {
    forall|i: int| 0 <= i < s.len() ==> #[trigger] s[i] == 'x'
}

impl InstructionEncodingPiece {
    /// A piece of only `0` and `1` is a literal, one of only `x` is ignored
    /// bits, anything else names an argument. (An empty string is a
    /// literal.)
    pub fn from_string(s: String) -> (r: InstructionEncodingPiece)
        ensures
            all_bits(s@) ==> (r matches InstructionEncodingPiece::Literal(t) && t@ == s@),
            !all_bits(s@) && all_x(s@) ==> r == InstructionEncodingPiece::Ignored(s@.len() as usize),
            !all_bits(s@) && !all_x(s@) ==> (r matches InstructionEncodingPiece::Arg(t) && t@ == s@),
    {
        let n = s.unicode_len();
        let mut bits = true;
        let mut xs = true;
        let mut i: usize = 0;
        while i < n
            invariant
                n == s@.len(),
                i <= n,
                bits == all_bits(s@.subrange(0, i as int)),
                xs == all_x(s@.subrange(0, i as int)),
            decreases n - i,
        {
            let c = s.as_str().get_char(i);
            proof {
                let a = s@.subrange(0, i as int);
                let b = s@.subrange(0, i + 1);
                assert(b =~= a.push(c));
                if !all_bits(a) {
                    let k = choose|k: int| 0 <= k < a.len() && !(#[trigger] a[k] == '0' || a[k] == '1');
                    assert(b[k] == a[k]);
                }
                if !all_x(a) {
                    let k = choose|k: int| 0 <= k < a.len() && !(#[trigger] a[k] == 'x');
                    assert(b[k] == a[k]);
                }
                if !(c == '0' || c == '1') {
                    assert(b[i as int] == c);
                }
                if c != 'x' {
                    assert(b[i as int] == c);
                }
            }
            bits = bits && (c == '0' || c == '1');
            xs = xs && c == 'x';
            i = i + 1;
        }
        proof {
            assert(s@.subrange(0, n as int) =~= s@);
        }
        if bits {
            InstructionEncodingPiece::Literal(s)
        } else if xs {
            InstructionEncodingPiece::Ignored(n)
        } else {
            InstructionEncodingPiece::Arg(s)
        }
    }
}

/// A value given either alone or as a list.
#[derive(Clone, Debug, PartialEq, Eq)]
pub enum OneOrMany<T> {
    One(T),
    Many(Vec<T>),
}

impl<T> OneOrMany<T> {
    /// The values as a list.
    pub fn into_vec(self) -> (r: Vec<T>)
        ensures
            match self {
                OneOrMany::One(x) => r@ == seq![x],
                OneOrMany::Many(v) => r@ == v@,
            },
    {
        match self {
            OneOrMany::One(x) => {
                let mut v: Vec<T> = Vec::new();
                v.push(x);
                v
            },
            OneOrMany::Many(v) => v,
        }
    }
}


/// One instruction of the definition.
#[derive(Clone, Debug)]
pub struct InstructionDef {
    pub title: String,
    /// Arguments in order, with their types.
    pub args: Vec<(String, InstructionEncodingArgType)>,
    pub encoding_pieces: Vec<InstructionEncodingPiece>,
    pub pseudocode: Option<Vec<String>>,
    pub note: Option<Vec<String>>,
    /// Steps of microinstruction names; `None` where none are written yet.
    pub microcode: Option<Vec<Vec<String>>>,
}

/// Width of the first argument called `name`.
pub open spec fn arg_width(args: Seq<(String, InstructionEncodingArgType)>, name: Seq<char>) -> Option<nat>
    decreases args.len(),
{
    if args.len() == 0 {
        None
    } else if args[0].0@ == name {
        Some(args[0].1.spec_bits())
    } else {
        arg_width(args.drop_first(), name)
    }
}

/// Bit pattern of the pieces from `i` on: literal bits as written, `x` for
/// ignored bits and argument fields; `None` for an undefined argument.
pub open spec fn pattern_from(pieces: Seq<InstructionEncodingPiece>, args: Seq<(String, InstructionEncodingArgType)>, i: int) -> Result<Seq<char>, Seq<char>>
    decreases pieces.len() - i,
{
    if i < 0 || i >= pieces.len() {
        Ok(seq![])
    } else {
        let head: Result<Seq<char>, Seq<char>> = match pieces[i] {
            InstructionEncodingPiece::Literal(b) => Ok(b@),
            InstructionEncodingPiece::Ignored(n) => Ok(Seq::new(n as nat, |k: int| 'x')),
            InstructionEncodingPiece::Arg(name) => match arg_width(args, name@) {
                Some(w) => Ok(Seq::new(w, |k: int| 'x')),
                None => Err(name@),
            },
        };
        match head {
            Err(n) => Err(n),
            Ok(h) => match pattern_from(pieces, args, i + 1) {
                Err(n) => Err(n),
                Ok(t) => Ok(h + t),
            },
        }
    }
}

fn find_arg_width(args: &Vec<(String, InstructionEncodingArgType)>, name: &str) -> (r: Option<usize>)
    ensures
        r matches Some(x) ==> arg_width(args@, name@) == Some(x as nat),
        r is None ==> arg_width(args@, name@) is None,
{
    let mut i: usize = 0;
    assert(args@.subrange(0, args@.len() as int) =~= args@);
    while i < args.len()
        invariant
            i <= args@.len(),
            arg_width(args@, name@) == arg_width(args@.subrange(i as int, args@.len() as int), name@),
        decreases args@.len() - i,
    {
        let ghost rest = args@.subrange(i as int, args@.len() as int);
        assert(rest.drop_first() =~= args@.subrange(i + 1, args@.len() as int));
        assert(rest[0] == args@[i as int]);
        if str_eq(args[i].0.as_str(), name) {
            return Some(args[i].1.bits());
        }
        i = i + 1;
    }
    None
}


impl InstructionDef {
    /// The instruction's sixteen character bit pattern. An argument that
    /// `args` does not name is `UndefinedArgument`; a pattern of another
    /// width is `WrongEncodingLength`.
    pub fn encoding(&self, mnemonic: &str) -> (r: Result<String, InstructionDefinitionError>)
        ensures
            match pattern_from(self.encoding_pieces@, self.args@, 0) {
                Err(n) => r matches Err(InstructionDefinitionError::UndefinedArgument { mnemonic: m, arg_name: a }) && m@ == mnemonic@ && a@ == n,
                Ok(p) => if p.len() == INSTRUCTION_BITS {
                    r matches Ok(e) && e@ == p
                } else {
                    r matches Err(InstructionDefinitionError::WrongEncodingLength { mnemonic: m, bits }) && m@ == mnemonic@ && bits == p.len()
                },
            },
    {
        let pieces = &self.encoding_pieces;
        let mut out: Vec<char> = Vec::new();
        let mut i: usize = 0;
        while i < pieces.len()
            invariant
                i <= pieces@.len(),
                pieces@ == self.encoding_pieces@,
                pattern_from(pieces@, self.args@, 0) == match pattern_from(pieces@, self.args@, i as int) {
                    Err(n) => Err::<Seq<char>, Seq<char>>(n),
                    Ok(t) => Ok(out@ + t),
                },
            decreases pieces@.len() - i,
        {
            let ghost before = out@;
            let ghost mut h: Seq<char> = seq![];
            let count: usize = match &pieces[i] {
                InstructionEncodingPiece::Literal(b) => {
                    let bs = b.as_str();
                    let n = bs.unicode_len();
                    let mut k: usize = 0;
                    proof {
                        h = b@;
                        assert(b@.subrange(0, 0) =~= seq![]);
                        assert(out@ =~= before + b@.subrange(0, 0));
                    }
                    while k < n
                        invariant
                            bs@ == b@,
                            n == b@.len(),
                            k <= n,
                            out@ == before + b@.subrange(0, k as int),
                        decreases n - k,
                    {
                        out.push(bs.get_char(k));
                        k = k + 1;
                        assert(out@ =~= before + b@.subrange(0, k as int));
                    }
                    assert(b@.subrange(0, n as int) =~= b@);
                    0
                },
                InstructionEncodingPiece::Ignored(n) => {
                    proof {
                        h = Seq::new(*n as nat, |k: int| 'x');
                    }
                    *n
                },
                InstructionEncodingPiece::Arg(name) => match find_arg_width(&self.args, name.as_str()) {
                    Some(w) => {
                        proof {
                            h = Seq::new(w as nat, |k: int| 'x');
                        }
                        w
                    },
                    None => {
                        return Err(InstructionDefinitionError::UndefinedArgument {
                            mnemonic: mnemonic.to_owned(),
                            arg_name: name.clone(),
                        });
                    },
                },
            };
            if count > 0 {
                let mut k: usize = 0;
                assert(out@ =~= before + Seq::new(0, |j: int| 'x'));
                while k < count
                    invariant
                        k <= count,
                        out@ == before + Seq::new(k as nat, |j: int| 'x'),
                    decreases count - k,
                {
                    out.push('x');
                    k = k + 1;
                    assert(out@ =~= before + Seq::new(k as nat, |j: int| 'x'));
                }
            } else {
                assert(out@ =~= before + h);
            }
            proof {
                assert(out@ == before + h);
                let head: Result<Seq<char>, Seq<char>> = match pieces@[i as int] {
                    InstructionEncodingPiece::Literal(b) => Ok(b@),
                    InstructionEncodingPiece::Ignored(n) => Ok(Seq::new(n as nat, |k: int| 'x')),
                    InstructionEncodingPiece::Arg(name) => match arg_width(self.args@, name@) {
                        Some(w) => Ok(Seq::new(w, |k: int| 'x')),
                        None => Err(name@),
                    },
                };
                assert(head is Ok);
                assert(head->Ok_0 =~= h);
                assert forall|t: Seq<char>| #[trigger] (before + (h + t)) == out@ + t by {
                    assert(before + (h + t) =~= out@ + t);
                }
            }
            i = i + 1;
        }
        if out.len() != INSTRUCTION_BITS {
            return Err(InstructionDefinitionError::WrongEncodingLength { mnemonic: mnemonic.to_owned(), bits: out.len() });
        }
        Ok(string_of(&out, 0, out.len()))
    }
}


/// Whether the first seven characters of a bit pattern admit the opcode
/// prefix `p`: each `0` or `1` must equal the prefix bit at its place, most
/// significant first; any other character admits both.
pub open spec fn prefix_admits(pattern: Seq<char>, p: u32) -> bool {
    forall|i: int|
        0 <= i < OPCODE_BITS ==> {
            let b = (p >> ((6 - i) as u32)) & 1;
            &&& #[trigger] pattern[i] == '0' ==> b == 0
            &&& pattern[i] == '1' ==> b == 1
        }
}

fn admits(pattern: &Vec<char>, p: u32) -> (r: bool)
    requires
        pattern@.len() >= OPCODE_BITS,
        p < 128,
    ensures
        r == prefix_admits(pattern@, p),
{
    let mut i: usize = 0;
    while i < OPCODE_BITS
        invariant
            i <= OPCODE_BITS,
            pattern@.len() >= OPCODE_BITS,
            forall|k: int|
                0 <= k < i ==> {
                    let b = (p >> ((6 - k) as u32)) & 1;
                    &&& #[trigger] pattern@[k] == '0' ==> b == 0
                    &&& pattern@[k] == '1' ==> b == 1
                },
        decreases OPCODE_BITS - i,
    {
        let b: u32 = (p >> ((6 - i) as u32)) & 1;
        let c = pattern[i];
        if (c == '0' && b != 0) || (c == '1' && b != 1) {
            return false;
        }
        i = i + 1;
    }
    true
}

/// Table from each seven bit prefix to the one instruction whose pattern
/// admits it. A prefix that two patterns admit is `OpcodeCollision`, naming
/// the first such prefix of the later instruction and both instructions.
pub fn make_opcode_table(patterns: &Vec<Vec<char>>) -> (r: Result<Vec<Option<usize>>, InstructionDefinitionError>)
    requires
        forall|j: int| 0 <= j < patterns@.len() ==> (#[trigger] patterns@[j])@.len() >= OPCODE_BITS,
    ensures
        r is Ok <==> forall|p: u32, a: int, b: int|
            p < 128 && 0 <= a < b < patterns@.len() && #[trigger] prefix_admits(patterns@[a]@, p)
                ==> !#[trigger] prefix_admits(patterns@[b]@, p),
        r matches Ok(t) ==> t@.len() == 128 && forall|p: u32|
            p < 128 ==> (match #[trigger] t@[p as int] {
                Some(j) => j < patterns@.len() && prefix_admits(patterns@[j as int]@, p),
                None => forall|j: int| #![trigger patterns@[j]] 0 <= j < patterns@.len() ==> !prefix_admits(patterns@[j]@, p),
            }),
        r matches Err(InstructionDefinitionError::OpcodeCollision { opcode, first, second }) ==> opcode < 128
            && first < second < patterns@.len() && prefix_admits(patterns@[first as int]@, opcode as u32)
            && prefix_admits(patterns@[second as int]@, opcode as u32),
        r is Err ==> r->Err_0 is OpcodeCollision,
{
    let mut table: Vec<Option<usize>> = Vec::new();
    let mut p: usize = 0;
    while p < 128
        invariant
            p <= 128,
            table@.len() == p,
            forall|q: int| 0 <= q < p ==> table@[q] is None,
        decreases 128 - p,
    {
        table.push(None);
        p = p + 1;
    }
    let mut j: usize = 0;
    while j < patterns.len()
        invariant
            j <= patterns@.len(),
            table@.len() == 128,
            forall|k: int| 0 <= k < patterns@.len() ==> (#[trigger] patterns@[k])@.len() >= OPCODE_BITS,
            forall|p: u32, a: int, b: int|
                p < 128 && 0 <= a < b < j && #[trigger] prefix_admits(patterns@[a]@, p)
                    ==> !#[trigger] prefix_admits(patterns@[b]@, p),
            forall|q: u32|
                q < 128 ==> (match #[trigger] table@[q as int] {
                    Some(k) => k < j && prefix_admits(patterns@[k as int]@, q),
                    None => forall|k: int| #![trigger patterns@[k]] 0 <= k < j ==> !prefix_admits(patterns@[k]@, q),
                }),
        decreases patterns@.len() - j,
    {
        let mut q: u32 = 0;
        let ghost before = table@;
        while q < 128
            invariant
                q <= 128,
                j < patterns@.len(),
                table@.len() == 128,
                before.len() == 128,
                patterns@[j as int]@.len() >= OPCODE_BITS,
                forall|x: u32|
                    x < 128 ==> (match #[trigger] before[x as int] {
                        Some(k) => k < j && prefix_admits(patterns@[k as int]@, x),
                        None => forall|k: int| #![trigger patterns@[k]] 0 <= k < j ==> !prefix_admits(patterns@[k]@, x),
                    }),
                forall|x: u32| x < q ==> before[x as int] is None || !prefix_admits(patterns@[j as int]@, x),
                forall|x: u32|
                    x < 128 ==> (match #[trigger] table@[x as int] {
                        Some(k) => k <= j && prefix_admits(patterns@[k as int]@, x),
                        None => forall|k: int| #![trigger patterns@[k]] 0 <= k <= j && (k < j || x < q) ==> !prefix_admits(patterns@[k]@, x),
                    }),
                forall|x: u32| q <= x < 128 ==> table@[x as int] == before[x as int],
            decreases 128 - q,
        {
            if admits(&patterns[j], q) {
                match table[q as usize] {
                    Some(k) => {
                        return Err(InstructionDefinitionError::OpcodeCollision {
                            opcode: q as usize,
                            first: k,
                            second: j,
                        });
                    },
                    None => {
                        table.set(q as usize, Some(j));
                    },
                }
            }
            q = q + 1;
        }
        proof {
            assert forall|x: u32, a: int, b: int|
                x < 128 && 0 <= a < b < j + 1 && #[trigger] prefix_admits(patterns@[a]@, x)
                    implies !#[trigger] prefix_admits(patterns@[b]@, x) by {
                if b == j {
                    assert(before[x as int] is Some);
                }
            }
        }
        j = j + 1;
    }
    Ok(table)
}

/// A whole instruction set definition: instructions by mnemonic in file
/// order, the microcode of invalid instructions, and the named lists of
/// microinstructions that `$name` tokens stand for.
pub struct InstructionSet {
    pub instructions: Vec<(String, InstructionDef)>,
    pub invalid_instruction_microcode: Option<Vec<Vec<String>>>,
    pub substitutions: Vec<(String, Vec<String>)>,
}

impl InstructionSet {
    /// Bit pattern of instruction `j`, when its encoding is valid.
    pub open spec fn pattern(self, j: int) -> Seq<char> {
        pattern_from(self.instructions@[j].1.encoding_pieces@, self.instructions@[j].1.args@, 0)->Ok_0
    }

    /// Every instruction's encoding names only its arguments and is sixteen
    /// bits wide.
    pub open spec fn encodings_valid(self) -> bool {
        forall|j: int|
            0 <= j < self.instructions@.len() ==> (#[trigger] pattern_from(
                self.instructions@[j].1.encoding_pieces@,
                self.instructions@[j].1.args@,
                0,
            )) is Ok && self.pattern(j).len() == INSTRUCTION_BITS
    }

    /// No opcode prefix is admitted by two instructions' patterns.
    pub open spec fn prefixes_disjoint(self) -> bool {
        forall|p: u32, a: int, b: int|
            p < 128 && 0 <= a < b < self.instructions@.len() && #[trigger] prefix_admits(self.pattern(a), p)
                ==> !#[trigger] prefix_admits(self.pattern(b), p)
    }

    /// For each seven bit opcode prefix, the index of the one instruction
    /// whose bit pattern admits it, or `None` where none does. The first
    /// instruction whose encoding is malformed gives its error; two
    /// instructions that admit one prefix give `OpcodeCollision`.
    pub fn opcode_table(&self) -> (r: Result<Vec<Option<usize>>, InstructionDefinitionError>)
        ensures
            r is Ok <==> self.encodings_valid() && self.prefixes_disjoint(),
            r matches Ok(t) ==> t@.len() == 128 && forall|p: u32|
                p < 128 ==> (match #[trigger] t@[p as int] {
                    Some(j) => j < self.instructions@.len() && prefix_admits(self.pattern(j as int), p),
                    None => forall|j: int| #![trigger self.instructions@[j]] 0 <= j < self.instructions@.len()
                        ==> !prefix_admits(self.pattern(j), p),
                }),
    {
        let mut patterns: Vec<Vec<char>> = Vec::new();
        let mut i: usize = 0;
        while i < self.instructions.len()
            invariant
                i <= self.instructions@.len(),
                patterns@.len() == i,
                forall|j: int| 0 <= j < i ==> (#[trigger] patterns@[j])@.len() == INSTRUCTION_BITS
                    && pattern_from(
                        self.instructions@[j].1.encoding_pieces@,
                        self.instructions@[j].1.args@,
                        0,
                    ) == Ok::<Seq<char>, Seq<char>>(patterns@[j]@),
            decreases self.instructions@.len() - i,
        {
            let (mnemonic, def) = (&self.instructions[i].0, &self.instructions[i].1);
            let e = match def.encoding(mnemonic.as_str()) {
                Ok(e) => e,
                Err(err) => {
                    proof {
                        assert(!(pattern_from(
                            self.instructions@[i as int].1.encoding_pieces@,
                            self.instructions@[i as int].1.args@,
                            0,
                        ) is Ok && self.pattern(i as int).len() == INSTRUCTION_BITS));
                    }
                    return Err(err);
                },
            };
            let es = e.as_str();
            let n = es.unicode_len();
            let mut chars: Vec<char> = Vec::new();
            let mut k: usize = 0;
            while k < n
                invariant
                    n == es@.len(),
                    k <= n,
                    chars@ == es@.subrange(0, k as int),
                decreases n - k,
            {
                chars.push(es.get_char(k));
                k = k + 1;
                assert(chars@ =~= es@.subrange(0, k as int));
            }
            assert(chars@ =~= es@);
            let ghost before = patterns@;
            patterns.push(chars);
            proof {
                assert forall|j: int| 0 <= j < i + 1 implies (#[trigger] patterns@[j])@.len() == INSTRUCTION_BITS
                    && pattern_from(
                        self.instructions@[j].1.encoding_pieces@,
                        self.instructions@[j].1.args@,
                        0,
                    ) == Ok::<Seq<char>, Seq<char>>(patterns@[j]@) by {
                    if j < i {
                        assert(patterns@[j] == before[j]);
                    }
                }
            }
            i = i + 1;
        }
        proof {
            assert forall|j: int| 0 <= j < patterns@.len() implies (#[trigger] patterns@[j])@ == self.pattern(j) by {}
            assert(self.encodings_valid()) by {
                assert forall|j: int| 0 <= j < self.instructions@.len() implies (#[trigger] pattern_from(
                    self.instructions@[j].1.encoding_pieces@,
                    self.instructions@[j].1.args@,
                    0,
                )) is Ok && self.pattern(j).len() == INSTRUCTION_BITS by {
                    assert(patterns@[j]@.len() == INSTRUCTION_BITS);
                }
            }
        }
        let r = make_opcode_table(&patterns);
        proof {
            assert forall|j: int| 0 <= j < patterns@.len() implies #[trigger] patterns@[j]@ == self.pattern(j) by {}
            if r is Ok {
                let t = r->Ok_0;
                assert forall|p: u32| p < 128 implies (match #[trigger] t@[p as int] {
                    Some(j) => j < self.instructions@.len() && prefix_admits(self.pattern(j as int), p),
                    None => forall|j: int| #![trigger self.instructions@[j]] 0 <= j < self.instructions@.len()
                        ==> !prefix_admits(self.pattern(j), p),
                }) by {
                    match t@[p as int] {
                        Some(j) => {
                            assert(patterns@[j as int]@ == self.pattern(j as int));
                        },
                        None => {
                            assert forall|j: int| #![trigger self.instructions@[j]] 0 <= j < self.instructions@.len()
                                implies !prefix_admits(self.pattern(j), p) by {
                                assert(patterns@[j]@ == self.pattern(j));
                            }
                        },
                    }
                }
                assert(self.prefixes_disjoint()) by {
                    assert forall|p: u32, a: int, b: int|
                        p < 128 && 0 <= a < b < self.instructions@.len() && #[trigger] prefix_admits(self.pattern(a), p)
                            implies !#[trigger] prefix_admits(self.pattern(b), p) by {
                        assert(patterns@[a]@ == self.pattern(a));
                        assert(patterns@[b]@ == self.pattern(b));
                    }
                }
            } else {
                let (p, a, b) = choose|p: u32, a: int, b: int|
                    p < 128 && 0 <= a < b < patterns@.len() && #[trigger] prefix_admits(patterns@[a]@, p)
                        && #[trigger] prefix_admits(patterns@[b]@, p);
                assert(patterns@[a]@ == self.pattern(a));
                assert(patterns@[b]@ == self.pattern(b));
            }
        }
        r
    }
}

} // verus!
