use vstd::prelude::*;
use crate::span::Span;

verus! {

/// Words the rules look for: the keywords that shape items and control flow, and a
/// few identifiers with a fixed meaning (`unwrap`, `panic`, `test`, ...).
#[derive(Clone, Copy, Debug, PartialEq, Eq, Structural)]
pub enum Word {
    Fn,
    Struct,
    Enum,
    Trait,
    Impl,
    Mod,
    Const,
    Static,
    Type,
    Pub,
    Let,
    Mut,
    If,
    Else,
    For,
    While,
    Loop,
    Match,
    Unsafe,
    Async,
    Extern,
    Use,
    Return,
    MacroRules,
    Unwrap,
    Expect,
    Panic,
    Todo,
    Unimplemented,
    Unreachable,
    Test,
}

/// The spelling of each word, as bytes.
pub open spec fn word_bytes(w: Word) -> Seq<u8> {
    match w {
        Word::Fn => seq![102u8, 110u8],  // fn
        Word::Struct => seq![115u8, 116u8, 114u8, 117u8, 99u8, 116u8],  // struct
        Word::Enum => seq![101u8, 110u8, 117u8, 109u8],  // enum
        Word::Trait => seq![116u8, 114u8, 97u8, 105u8, 116u8],  // trait
        Word::Impl => seq![105u8, 109u8, 112u8, 108u8],  // impl
        Word::Mod => seq![109u8, 111u8, 100u8],  // mod
        Word::Const => seq![99u8, 111u8, 110u8, 115u8, 116u8],  // const
        Word::Static => seq![115u8, 116u8, 97u8, 116u8, 105u8, 99u8],  // static
        Word::Type => seq![116u8, 121u8, 112u8, 101u8],  // type
        Word::Pub => seq![112u8, 117u8, 98u8],  // pub
        Word::Let => seq![108u8, 101u8, 116u8],  // let
        Word::Mut => seq![109u8, 117u8, 116u8],  // mut
        Word::If => seq![105u8, 102u8],  // if
        Word::Else => seq![101u8, 108u8, 115u8, 101u8],  // else
        Word::For => seq![102u8, 111u8, 114u8],  // for
        Word::While => seq![119u8, 104u8, 105u8, 108u8, 101u8],  // while
        Word::Loop => seq![108u8, 111u8, 111u8, 112u8],  // loop
        Word::Match => seq![109u8, 97u8, 116u8, 99u8, 104u8],  // match
        Word::Unsafe => seq![117u8, 110u8, 115u8, 97u8, 102u8, 101u8],  // unsafe
        Word::Async => seq![97u8, 115u8, 121u8, 110u8, 99u8],  // async
        Word::Extern => seq![101u8, 120u8, 116u8, 101u8, 114u8, 110u8],  // extern
        Word::Use => seq![117u8, 115u8, 101u8],  // use
        Word::Return => seq![114u8, 101u8, 116u8, 117u8, 114u8, 110u8],  // return
        Word::MacroRules => seq![109u8, 97u8, 99u8, 114u8, 111u8, 95u8, 114u8, 117u8, 108u8, 101u8, 115u8],  // macro_rules
        Word::Unwrap => seq![117u8, 110u8, 119u8, 114u8, 97u8, 112u8],  // unwrap
        Word::Expect => seq![101u8, 120u8, 112u8, 101u8, 99u8, 116u8],  // expect
        Word::Panic => seq![112u8, 97u8, 110u8, 105u8, 99u8],  // panic
        Word::Todo => seq![116u8, 111u8, 100u8, 111u8],  // todo
        Word::Unimplemented => seq![117u8, 110u8, 105u8, 109u8, 112u8, 108u8, 101u8, 109u8, 101u8, 110u8, 116u8, 101u8, 100u8],  // unimplemented
        Word::Unreachable => seq![117u8, 110u8, 114u8, 101u8, 97u8, 99u8, 104u8, 97u8, 98u8, 108u8, 101u8],  // unreachable
        Word::Test => seq![116u8, 101u8, 115u8, 116u8],  // test
    }
}

impl Word {
    /// Keywords of the language, as opposed to identifiers with a fixed meaning.
    pub open spec fn spec_is_keyword(self) -> bool {
        !(self == Word::Unwrap || self == Word::Expect || self == Word::Panic || self == Word::Todo
            || self == Word::Unimplemented || self == Word::Unreachable || self == Word::Test)
    }

    pub fn is_keyword(&self) -> (r: bool)
        ensures
            r == self.spec_is_keyword(),
    {
        match self {
            Word::Unwrap | Word::Expect | Word::Panic | Word::Todo | Word::Unimplemented
            | Word::Unreachable | Word::Test => false,
            _ => true,
        }
    }

    /// Position in the lookup table.
    pub fn position(&self) -> (r: u32)
        ensures
            r == self.index(),
    {
        match self {
            Word::Fn => 0,
            Word::Struct => 1,
            Word::Enum => 2,
            Word::Trait => 3,
            Word::Impl => 4,
            Word::Mod => 5,
            Word::Const => 6,
            Word::Static => 7,
            Word::Type => 8,
            Word::Pub => 9,
            Word::Let => 10,
            Word::Mut => 11,
            Word::If => 12,
            Word::Else => 13,
            Word::For => 14,
            Word::While => 15,
            Word::Loop => 16,
            Word::Match => 17,
            Word::Unsafe => 18,
            Word::Async => 19,
            Word::Extern => 20,
            Word::Use => 21,
            Word::Return => 22,
            Word::MacroRules => 23,
            Word::Unwrap => 24,
            Word::Expect => 25,
            Word::Panic => 26,
            Word::Todo => 27,
            Word::Unimplemented => 28,
            Word::Unreachable => 29,
            Word::Test => 30,
        }
    }

    /// Position in the lookup table.
    pub open spec fn index(self) -> int {
        match self {
            Word::Fn => 0,
            Word::Struct => 1,
            Word::Enum => 2,
            Word::Trait => 3,
            Word::Impl => 4,
            Word::Mod => 5,
            Word::Const => 6,
            Word::Static => 7,
            Word::Type => 8,
            Word::Pub => 9,
            Word::Let => 10,
            Word::Mut => 11,
            Word::If => 12,
            Word::Else => 13,
            Word::For => 14,
            Word::While => 15,
            Word::Loop => 16,
            Word::Match => 17,
            Word::Unsafe => 18,
            Word::Async => 19,
            Word::Extern => 20,
            Word::Use => 21,
            Word::Return => 22,
            Word::MacroRules => 23,
            Word::Unwrap => 24,
            Word::Expect => 25,
            Word::Panic => 26,
            Word::Todo => 27,
            Word::Unimplemented => 28,
            Word::Unreachable => 29,
            Word::Test => 30,
        }
    }
}

/// All words, in lookup order.
pub open spec fn all_words() -> Seq<Word> {
    seq![
        Word::Fn, Word::Struct, Word::Enum, Word::Trait, Word::Impl, Word::Mod, Word::Const, Word::Static, Word::Type, Word::Pub, Word::Let, Word::Mut, Word::If, Word::Else, Word::For, Word::While, Word::Loop, Word::Match, Word::Unsafe, Word::Async, Word::Extern, Word::Use, Word::Return, Word::MacroRules, Word::Unwrap, Word::Expect, Word::Panic, Word::Todo, Word::Unimplemented, Word::Unreachable, Word::Test,
    ]
}

fn word_table() -> (r: Vec<Word>)
    ensures
        r@ == all_words(),
{
    let v = vec![
        Word::Fn, Word::Struct, Word::Enum, Word::Trait, Word::Impl, Word::Mod, Word::Const, Word::Static, Word::Type, Word::Pub, Word::Let, Word::Mut, Word::If, Word::Else, Word::For, Word::While, Word::Loop, Word::Match, Word::Unsafe, Word::Async, Word::Extern, Word::Use, Word::Return, Word::MacroRules, Word::Unwrap, Word::Expect, Word::Panic, Word::Todo, Word::Unimplemented, Word::Unreachable, Word::Test,
    ];
    proof {
        assert(v@ =~= all_words());
    }
    v
}

fn spelling(w: Word) -> (r: Vec<u8>)
    ensures
        r@ == word_bytes(w),
{
    let v = match w {
        Word::Fn => vec![102, 110],
        Word::Struct => vec![115, 116, 114, 117, 99, 116],
        Word::Enum => vec![101, 110, 117, 109],
        Word::Trait => vec![116, 114, 97, 105, 116],
        Word::Impl => vec![105, 109, 112, 108],
        Word::Mod => vec![109, 111, 100],
        Word::Const => vec![99, 111, 110, 115, 116],
        Word::Static => vec![115, 116, 97, 116, 105, 99],
        Word::Type => vec![116, 121, 112, 101],
        Word::Pub => vec![112, 117, 98],
        Word::Let => vec![108, 101, 116],
        Word::Mut => vec![109, 117, 116],
        Word::If => vec![105, 102],
        Word::Else => vec![101, 108, 115, 101],
        Word::For => vec![102, 111, 114],
        Word::While => vec![119, 104, 105, 108, 101],
        Word::Loop => vec![108, 111, 111, 112],
        Word::Match => vec![109, 97, 116, 99, 104],
        Word::Unsafe => vec![117, 110, 115, 97, 102, 101],
        Word::Async => vec![97, 115, 121, 110, 99],
        Word::Extern => vec![101, 120, 116, 101, 114, 110],
        Word::Use => vec![117, 115, 101],
        Word::Return => vec![114, 101, 116, 117, 114, 110],
        Word::MacroRules => vec![109, 97, 99, 114, 111, 95, 114, 117, 108, 101, 115],
        Word::Unwrap => vec![117, 110, 119, 114, 97, 112],
        Word::Expect => vec![101, 120, 112, 101, 99, 116],
        Word::Panic => vec![112, 97, 110, 105, 99],
        Word::Todo => vec![116, 111, 100, 111],
        Word::Unimplemented => vec![117, 110, 105, 109, 112, 108, 101, 109, 101, 110, 116, 101, 100],
        Word::Unreachable => vec![117, 110, 114, 101, 97, 99, 104, 97, 98, 108, 101],
        Word::Test => vec![116, 101, 115, 116],
    };
    proof {
        assert(v@ =~= word_bytes(w));
    }
    v
}

/// The first word of the table from `i` on that is spelt `t`.
pub open spec fn find_word(t: Seq<u8>, i: int) -> Option<Word>
    decreases all_words().len() - i,
{
    if i < 0 || i >= all_words().len() {
        None
    } else if word_bytes(all_words()[i]) == t {
        Some(all_words()[i])
    } else {
        find_word(t, i + 1)
    }
}

/// The word spelt `t`, if any.
pub open spec fn word_of(t: Seq<u8>) -> Option<Word> {
    find_word(t, 0)
}

/// The bytes of `s` that `sp` covers.
pub open spec fn text(s: Seq<u8>, sp: Span) -> Seq<u8> {
    s.subrange(sp.start as int, sp.end as int)
}

/// Whether the bytes of `s` under `sp` equal `lit`.
pub fn text_eq(s: &[u8], sp: Span, lit: &Vec<u8>) -> (r: bool)
    requires
        sp.start <= sp.end <= s@.len(),
    ensures
        r == (text(s@, sp) == lit@),
{
    if sp.end - sp.start != lit.len() {
        proof {
            assert(text(s@, sp).len() != lit@.len());
        }
        return false;
    }
    let mut k: usize = 0;
    while k < lit.len()
        invariant
            sp.start <= sp.end <= s@.len(),
            sp.end - sp.start == lit@.len(),
            k <= lit@.len(),
            forall|m: int| 0 <= m < k ==> s@[sp.start + m] == lit@[m],
        decreases lit.len() - k,
    {
        if s[sp.start + k] != lit[k] {
            proof {
                assert(text(s@, sp)[k as int] != lit@[k as int]);
            }
            return false;
        }
        k = k + 1;
    }
    proof {
        assert(text(s@, sp) =~= lit@);
    }
    true
}

/// The word that the bytes under `sp` spell, if any.
pub fn word_at(s: &[u8], sp: Span) -> (r: Option<Word>)
    requires
        sp.start <= sp.end <= s@.len(),
    ensures
        r == word_of(text(s@, sp)),
{
    let table = word_table();
    let mut i: usize = 0;
    while i < table.len()
        invariant
            sp.start <= sp.end <= s@.len(),
            table@ == all_words(),
            i <= table@.len(),
            find_word(text(s@, sp), i as int) == find_word(text(s@, sp), 0),
        decreases table.len() - i,
    {
        let w = table[i];
        if text_eq(s, sp, &spelling(w)) {
            return Some(w);
        }
        i = i + 1;
    }
    None
}

} // verus!
