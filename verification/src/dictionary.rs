use vstd::prelude::*;

use crate::word::{ForthWord, WordFunc, WordType, WordView};

verus! {

/// A cell of the code space.
#[derive(Clone, Copy, Debug, PartialEq, Eq, Structural)]
pub enum DefineItem {
    /// A call of a primitive behaviour.
    Func(WordFunc),
    /// A literal value.
    Lit(i32),
    /// A call of the colon definition whose body starts at this address.
    Addr(usize),
}

/// Operation codes of a virtual machine.
#[derive(Debug)]
pub enum OpCode {
    ADD,
    MINUS,
    MUL,
    DIV,
    MOD,
    DUP,
    SWAP,
    ROT,
    OVER,
    DICT,
}

/// The dictionary: the words known to the interpreter, indexed by name,
/// and the code space that colon definitions, constants and variables are
/// compiled into.
#[derive(Debug)]
pub struct Dictionary {
    defines: Vec<DefineItem>,
    index: Vec<ForthWord>,
    last_word: Option<String>,
}

/// The mathematical value of a [`Dictionary`].
pub struct DictView {
    /// The entries, in the order in which their names were first defined.
    pub words: Seq<WordView>,
    /// The code space.
    pub defines: Seq<DefineItem>,
    /// The name of the entry created last by `create_word`, if any.
    pub last_word: Option<Seq<char>>,
}

/// The values of a sequence of entries.
pub open spec fn words_view(ws: Seq<ForthWord>) -> Seq<WordView> {
    ws.map_values(|w: ForthWord| w@)
}

/// The position of the entry named `name` in `ws`, searching from the end,
/// or -1 where there is none.
pub open spec fn find_pos(ws: Seq<WordView>, name: Seq<char>) -> int
    decreases ws.len(),
{
    if ws.len() == 0 {
        -1
    } else if ws.last().name == name {
        ws.len() - 1
    } else {
        find_pos(ws.drop_last(), name)
    }
}

/// The entry named `name`, if there is one.
pub open spec fn lookup(ws: Seq<WordView>, name: Seq<char>) -> Option<WordView> {
    let p = find_pos(ws, name);
    if p >= 0 {
        Some(ws[p])
    } else {
        None
    }
}

/// `ws` with `w` entered under its name: it replaces the entry of that
/// name where there is one, and is added at the end where there is none.
pub open spec fn insert_word(ws: Seq<WordView>, w: WordView) -> Seq<WordView> {
    let p = find_pos(ws, w.name);
    if p >= 0 {
        ws.update(p, w)
    } else {
        ws.push(w)
    }
}

/// No two entries share a name.
pub open spec fn names_unique(ws: Seq<WordView>) -> bool {
    forall|i: int, j: int|
        0 <= i < ws.len() && 0 <= j < ws.len() && i != j ==> #[trigger] ws[i].name != #[trigger] ws[j].name
}

/// A well-formed dictionary: every name is entered once, and the entry
/// created last is in it.
pub open spec fn dict_wf(d: DictView) -> bool {
    &&& names_unique(d.words)
    &&& (d.last_word is Some ==> find_pos(d.words, d.last_word->0) >= 0)
}

/// In a well-formed dictionary that has an entry created last, that entry
/// is found under its name: asking for it fails only where there is none.
pub proof fn law_last_word_found(d: DictView)
    requires
        dict_wf(d),
        d.last_word is Some,
    ensures
        find_pos(d.words, d.last_word->0) >= 0,
        lookup(d.words, d.last_word->0) == Some(d.words[find_pos(d.words, d.last_word->0)]),
{
}

/// What compiling a reference to `w` appends to the code space: a call of
/// its behaviour for a primitive, a call of its body for a colon definition,
/// and nothing (the compilation fails) for a constant or a variable.
pub open spec fn compiled_item(w: WordView) -> Option<DefineItem> {
    match w.wtype {
        WordType::Primv => Some(DefineItem::Func(w.func)),
        WordType::Dict => Some(DefineItem::Addr(w.define_ptr)),
        _ => None,
    }
}

/// The entry that `create_word` makes for `name` over a code space of
/// length `len`.
pub open spec fn created_word(name: Seq<char>, len: nat) -> WordView {
    WordView {
        name: name,
        func: WordFunc::Colon,
        wtype: WordType::Dict,
        immediate: false,
        define_ptr: len as usize,
    }
}

/// `find_pos` gives the last position whose entry has the name, or -1.
pub proof fn lemma_find_pos(ws: Seq<WordView>, name: Seq<char>)
    ensures
        -1 <= find_pos(ws, name) < ws.len(),
        find_pos(ws, name) >= 0 ==> ws[find_pos(ws, name)].name == name,
        forall|j: int| find_pos(ws, name) < j < ws.len() ==> #[trigger] ws[j].name != name,
    decreases ws.len(),
{
    if ws.len() > 0 && ws.last().name != name {
        lemma_find_pos(ws.drop_last(), name);
        assert forall|j: int| find_pos(ws, name) < j < ws.len() implies #[trigger] ws[j].name != name by {
            if j < ws.len() - 1 {
                assert(ws[j] == ws.drop_last()[j]);
            }
        }
    }
}

/// A position that has the name, with no later one that has it, is the one
/// that `find_pos` gives.
pub proof fn lemma_find_pos_is(ws: Seq<WordView>, name: Seq<char>, p: int)
    requires
        -1 <= p < ws.len(),
        p >= 0 ==> ws[p].name == name,
        forall|j: int| p < j < ws.len() ==> #[trigger] ws[j].name != name,
    ensures
        find_pos(ws, name) == p,
{
    lemma_find_pos(ws, name);
    let q = find_pos(ws, name);
    if q < p {
        assert(ws[p].name == name);
    } else if p < q {
        assert(ws[q].name == name);
    }
}

/// Entering `w` makes it the entry of its name and leaves every other name
/// as it was.
pub proof fn law_lookup_after_insert(ws: Seq<WordView>, w: WordView, name: Seq<char>)
    ensures
        lookup(insert_word(ws, w), name) == (if name == w.name {
            Some(w)
        } else {
            lookup(ws, name)
        }),
        insert_word(ws, w).len() == ws.len() + (if find_pos(ws, w.name) >= 0 { 0int } else { 1int }),
{
    lemma_find_pos(ws, w.name);
    lemma_find_pos(ws, name);
    let p = find_pos(ws, w.name);
    let q = find_pos(ws, name);
    let ws2 = insert_word(ws, w);
    if p >= 0 {
        if name == w.name {
            lemma_find_pos_is(ws2, name, p);
        } else {
            assert forall|j: int| q < j < ws2.len() implies #[trigger] ws2[j].name != name by {
                assert(ws[j].name != name);
            }
            lemma_find_pos_is(ws2, name, q);
        }
    } else {
        if name == w.name {
            lemma_find_pos_is(ws2, name, ws.len() as int);
        } else {
            assert forall|j: int| q < j < ws2.len() implies #[trigger] ws2[j].name != name by {
                if j < ws.len() {
                    assert(ws[j].name != name);
                }
            }
            lemma_find_pos_is(ws2, name, q);
        }
    }
}

/// Entering a word keeps the names unique.
pub proof fn law_insert_keeps_names_unique(ws: Seq<WordView>, w: WordView)
    requires
        names_unique(ws),
    ensures
        names_unique(insert_word(ws, w)),
{
    lemma_find_pos(ws, w.name);
    let p = find_pos(ws, w.name);
    let ws2 = insert_word(ws, w);
    assert forall|i: int, j: int|
        0 <= i < ws2.len() && 0 <= j < ws2.len() && i != j implies #[trigger] ws2[i].name
        != #[trigger] ws2[j].name by {
        if p >= 0 {
            if i == p {
                assert(ws[p].name == w.name);
                assert(ws[j].name != ws[p].name);
            } else if j == p {
                assert(ws[i].name != ws[p].name);
            } else {
                assert(ws[i].name != ws[j].name);
            }
        } else {
            if i == ws.len() {
                assert(ws[j].name != w.name);
            } else if j == ws.len() {
                assert(ws[i].name != w.name);
            } else {
                assert(ws[i].name != ws[j].name);
            }
        }
    }
}

/// Changing an entry without changing its name changes where no name is
/// found.
pub proof fn lemma_update_same_name(ws: Seq<WordView>, p: int, w: WordView)
    requires
        0 <= p < ws.len(),
        ws[p].name == w.name,
    ensures
        forall|n: Seq<char>| #[trigger] find_pos(ws.update(p, w), n) == find_pos(ws, n),
        names_unique(ws) ==> names_unique(ws.update(p, w)),
{
    let ws2 = ws.update(p, w);
    assert forall|n: Seq<char>| #[trigger] find_pos(ws2, n) == find_pos(ws, n) by {
        lemma_find_pos(ws, n);
        assert forall|j: int| find_pos(ws, n) < j < ws2.len() implies #[trigger] ws2[j].name != n by {
            assert(ws[j].name != n);
        }
        lemma_find_pos_is(ws2, n, find_pos(ws, n));
    }
    if names_unique(ws) {
        assert forall|i: int, j: int|
            0 <= i < ws2.len() && 0 <= j < ws2.len() && i != j implies #[trigger] ws2[i].name
            != #[trigger] ws2[j].name by {
            assert(ws[i].name != ws[j].name);
        }
    }
}

impl View for Dictionary {
    type V = DictView;

    closed spec fn view(&self) -> DictView {
        DictView {
            words: words_view(self.index@),
            defines: self.defines@,
            last_word: match self.last_word {
                Some(s) => Some(s@),
                None => None,
            },
        }
    }
}

impl Dictionary {
    /// An empty dictionary with an empty code space.
    pub fn new() -> (d: Self)
        ensures
            d@.words == Seq::<WordView>::empty(),
            d@.defines == Seq::<DefineItem>::empty(),
            d@.last_word is None,
            dict_wf(d@),
    {
        let d = Dictionary { defines: vec![], index: Vec::new(), last_word: None };
        proof {
            assert(words_view(d.index@) =~= Seq::<WordView>::empty());
        }
        d
    }

    /// The position of the entry named `key`, if there is one.
    fn position(&self, key: &String) -> (r: Option<usize>)
        ensures
            match r {
                Some(p) => p == find_pos(self@.words, key@) && p < self@.words.len(),
                None => find_pos(self@.words, key@) == -1,
            },
    {
        let ghost ws = self@.words;
        proof {
            lemma_find_pos(ws, key@);
        }
        let mut i: usize = self.index.len();
        proof {
            assert(ws.take(i as int) =~= ws);
        }
        while i > 0
            invariant
                i <= self.index@.len(),
                ws == words_view(self.index@),
                ws == self@.words,
                find_pos(ws, key@) == find_pos(ws.take(i as int), key@),
            decreases i,
        {
            proof {
                assert(ws.take(i as int).last() == ws[i - 1]);
                assert(ws.take(i as int).drop_last() =~= ws.take(i - 1));
            }
            if self.index[i - 1].name == *key {
                return Some(i - 1);
            }
            i = i - 1;
        }
        None
    }

    /// The entry named `name`, if there is one.
    pub fn find(&self, name: &str) -> (r: Option<&ForthWord>)
        ensures
            match r {
                Some(w) => lookup(self@.words, name@) == Some(w@),
                None => lookup(self@.words, name@) is None,
            },
    {
        let key = String::from_str(name);
        match self.position(&key) {
            Some(p) => Some(&self.index[p]),
            None => None,
        }
    }

    /// The position of the entry created last.
    fn last_word(&self) -> (pos: usize)
        requires
            self@.last_word is Some,
            find_pos(self@.words, self@.last_word->0) >= 0,
        ensures
            pos == find_pos(self@.words, self@.last_word->0),
            pos < self@.words.len(),
    {
        match &self.last_word {
            Some(k) => match self.position(k) {
                Some(p) => p,
                None => {
                    proof {
                        assert(false);
                    }
                    0
                },
            },
            None => {
                proof {
                    assert(false);
                }
                0
            },
        }
    }

    /// Replaces the entry at `pos` by `w`, which has the same name.
    fn replace_at(&mut self, pos: usize, w: ForthWord)
        requires
            pos < old(self)@.words.len(),
            w.name@ == old(self)@.words[pos as int].name,
        ensures
            final(self)@.words == old(self)@.words.update(pos as int, w@),
            final(self)@.defines == old(self)@.defines,
            final(self)@.last_word == old(self)@.last_word,
    {
        let ghost ws2 = self@.words.update(pos as int, w@);
        self.index.set(pos, w);
        proof {
            assert(words_view(self.index@) =~= ws2);
        }
    }

    /// Enters `w` under its name.
    fn insert(&mut self, w: ForthWord)
        ensures
            final(self)@.words == insert_word(old(self)@.words, w@),
            final(self)@.defines == old(self)@.defines,
            final(self)@.last_word == old(self)@.last_word,
    {
        proof {
            lemma_find_pos(self@.words, w.name@);
        }
        let ghost ws = self@.words;
        match self.position(&w.name) {
            Some(p) => {
                self.replace_at(p, w);
            },
            None => {
                self.index.push(w);
                proof {
                    assert(words_view(self.index@) =~= insert_word(ws, w@));
                }
            },
        }
    }

    /// Marks the entry created last as immediate.
    pub fn set_last_immediate(&mut self)
        requires
            old(self)@.last_word is Some,
            find_pos(old(self)@.words, old(self)@.last_word->0) >= 0,
        ensures
            ({
                let p = find_pos(old(self)@.words, old(self)@.last_word->0);
                final(self)@.words == old(self)@.words.update(
                    p,
                    WordView { immediate: true, ..old(self)@.words[p] },
                )
            }),
            final(self)@.defines == old(self)@.defines,
            final(self)@.defines.len() == old(self)@.defines.len(),
            final(self)@.last_word == old(self)@.last_word,
            dict_wf(old(self)@) ==> dict_wf(final(self)@),
    {
        let pos = self.last_word();
        proof {
            lemma_update_same_name(
                self@.words,
                pos as int,
                WordView { immediate: true, ..self@.words[pos as int] },
            );
        }
        let w = ForthWord {
            name: self.index[pos].name.clone(),
            func: self.index[pos].func,
            wtype: self.index[pos].wtype,
            immediate: true,
            define_ptr: self.index[pos].define_ptr,
        };
        self.replace_at(pos, w);
    }

    /// Gives the entry created last the behaviour `func`.
    pub fn set_last_func(&mut self, func: WordFunc)
        requires
            old(self)@.last_word is Some,
            find_pos(old(self)@.words, old(self)@.last_word->0) >= 0,
        ensures
            ({
                let p = find_pos(old(self)@.words, old(self)@.last_word->0);
                final(self)@.words == old(self)@.words.update(
                    p,
                    WordView { func: func, ..old(self)@.words[p] },
                )
            }),
            final(self)@.defines == old(self)@.defines,
            final(self)@.defines.len() == old(self)@.defines.len(),
            final(self)@.last_word == old(self)@.last_word,
            dict_wf(old(self)@) ==> dict_wf(final(self)@),
    {
        let pos = self.last_word();
        proof {
            lemma_update_same_name(
                self@.words,
                pos as int,
                WordView { func: func, ..self@.words[pos as int] },
            );
        }
        let w = ForthWord {
            name: self.index[pos].name.clone(),
            func: func,
            wtype: self.index[pos].wtype,
            immediate: self.index[pos].immediate,
            define_ptr: self.index[pos].define_ptr,
        };
        self.replace_at(pos, w);
    }

    /// Gives the entry created last the type `wtype`.
    pub fn set_last_type(&mut self, wtype: WordType)
        requires
            old(self)@.last_word is Some,
            find_pos(old(self)@.words, old(self)@.last_word->0) >= 0,
        ensures
            ({
                let p = find_pos(old(self)@.words, old(self)@.last_word->0);
                final(self)@.words == old(self)@.words.update(
                    p,
                    WordView { wtype: wtype, ..old(self)@.words[p] },
                )
            }),
            final(self)@.defines == old(self)@.defines,
            final(self)@.defines.len() == old(self)@.defines.len(),
            final(self)@.last_word == old(self)@.last_word,
            dict_wf(old(self)@) ==> dict_wf(final(self)@),
    {
        let pos = self.last_word();
        proof {
            lemma_update_same_name(
                self@.words,
                pos as int,
                WordView { wtype: wtype, ..self@.words[pos as int] },
            );
        }
        let w = ForthWord {
            name: self.index[pos].name.clone(),
            func: self.index[pos].func,
            wtype: wtype,
            immediate: self.index[pos].immediate,
            define_ptr: self.index[pos].define_ptr,
        };
        self.replace_at(pos, w);
    }

    /// A copy of every entry, for listing.
    pub fn list_words(&self) -> (r: Vec<ForthWord>)
        ensures
            words_view(r@) == self@.words,
    {
        let mut r: Vec<ForthWord> = Vec::new();
        let n: usize = self.index.len();
        for i in 0..n
            invariant
                n == self.index@.len(),
                r@.len() == i,
                forall|j: int| 0 <= j < i ==> #[trigger] r@[j]@ == self.index@[j]@,
        {
            let w = self.index[i].duplicate();
            r.push(w);
        }
        proof {
            assert(words_view(r@) =~= words_view(self.index@));
        }
        r
    }

    /// Creates a colon definition named `name` whose body starts at the end
    /// of the code space, and makes it the entry created last.
    pub fn create_word(&mut self, name: String)
        ensures
            final(self)@.words == insert_word(
                old(self)@.words,
                created_word(name@, old(self)@.defines.len()),
            ),
            final(self)@.defines == old(self)@.defines,
            final(self)@.defines.len() == old(self)@.defines.len(),
            final(self)@.last_word == Some(name@),
            dict_wf(old(self)@) ==> dict_wf(final(self)@),
    {
        proof {
            let w = created_word(name@, self@.defines.len());
            law_lookup_after_insert(self@.words, w, name@);
            lemma_find_pos(insert_word(self@.words, w), name@);
            if names_unique(self@.words) {
                law_insert_keeps_names_unique(self@.words, w);
            }
        }
        let word = ForthWord {
            name: name.clone(),
            func: WordFunc::Colon,
            wtype: WordType::Dict,
            immediate: false,
            define_ptr: self.defines.len(),
        };
        self.insert(word);
        self.last_word = Some(name);
    }

    /// Enters a primitive word.
    pub fn create_primv_word(&mut self, word: ForthWord)
        ensures
            final(self)@.words == insert_word(old(self)@.words, word@),
            final(self)@.defines == old(self)@.defines,
            final(self)@.defines.len() == old(self)@.defines.len(),
            final(self)@.last_word == old(self)@.last_word,
            dict_wf(old(self)@) ==> dict_wf(final(self)@),
    {
        proof {
            if self@.last_word is Some {
                law_lookup_after_insert(self@.words, word@, self@.last_word->0);
            }
            if names_unique(self@.words) {
                law_insert_keeps_names_unique(self@.words, word@);
            }
        }
        self.insert(word);
    }

    /// Compiles a reference to the word named `name` at the end of the code
    /// space. Gives `false`, and changes nothing, where there is no such
    /// word. A constant or a variable cannot be compiled.
    pub fn compile(&mut self, name: &str) -> (r: bool)
        requires
            lookup(old(self)@.words, name@) matches Some(w) ==> compiled_item(w) is Some,
        ensures
            match lookup(old(self)@.words, name@) {
                None => !r && final(self)@ == old(self)@,
                Some(w) => r && final(self)@ == (DictView {
                    defines: old(self)@.defines.push(compiled_item(w)->0),
                    ..old(self)@
                }),
            },
            final(self)@.defines.len() == old(self)@.defines.len() + (if r { 1int } else { 0int }),
            dict_wf(old(self)@) ==> dict_wf(final(self)@),
    {
        let item = match self.find(name) {
            Some(w) => match w.wtype {
                WordType::Primv => DefineItem::Func(w.func),
                WordType::Dict => DefineItem::Addr(w.define_ptr),
                _ => {
                    proof {
                        assert(false);
                    }
                    return false;
                },
            },
            None => {
                return false;
            },
        };
        self.defines.push(item);
        true
    }

    /// Appends the literal `val` to the code space.
    pub fn compile_lit(&mut self, val: i32)
        ensures
            final(self)@ == (DictView { defines: old(self)@.defines.push(DefineItem::Lit(val)), ..old(self)@ }),
            final(self)@.defines.len() == old(self)@.defines.len() + 1,
            dict_wf(old(self)@) ==> dict_wf(final(self)@),
    {
        self.defines.push(DefineItem::Lit(val));
    }

    /// The literal at `pos` in the code space.
    pub fn get_lit(&mut self, pos: usize) -> (n: i32)
        requires
            pos < old(self)@.defines.len(),
            old(self)@.defines[pos as int] is Lit,
        ensures
            old(self)@.defines[pos as int] == DefineItem::Lit(n),
            final(self)@ == old(self)@,
    {
        match self.defines[pos] {
            DefineItem::Lit(n) => n,
            _ => {
                proof {
                    assert(false);
                }
                0
            },
        }
    }

    /// The length of the code space: the address the next compiled cell
    /// gets.
    pub fn tod(&self) -> (n: usize)
        ensures
            n == self@.defines.len(),
    {
        self.defines.len()
    }

    /// Overwrites the cell at `pos` with the literal `to_val`, taken as an
    /// `i32`.
    pub fn put_lit(&mut self, pos: usize, to_val: usize)
        requires
            pos < old(self)@.defines.len(),
        ensures
            final(self)@ == (DictView {
                defines: old(self)@.defines.update(pos as int, DefineItem::Lit(to_val as i32)),
                ..old(self)@
            }),
            final(self)@.defines.len() == old(self)@.defines.len(),
            dict_wf(old(self)@) ==> dict_wf(final(self)@),
    {
        self.defines.set(pos, DefineItem::Lit(to_val as i32));
    }

    /// The cell at `pos` in the code space.
    pub fn get_define(&self, pos: usize) -> (r: &DefineItem)
        requires
            pos < self@.defines.len(),
        ensures
            *r == self@.defines[pos as int],
    {
        &self.defines[pos]
    }

    /// The length of the code space.
    pub fn get_define_len(&self) -> (n: usize)
        ensures
            n == self@.defines.len(),
    {
        self.defines.len()
    }

    /// A copy of the code space.
    pub fn code_space(&self) -> (r: Vec<DefineItem>)
        ensures
            r@ == self@.defines,
    {
        let mut r: Vec<DefineItem> = Vec::new();
        let n: usize = self.defines.len();
        for i in 0..n
            invariant
                n == self.defines@.len(),
                r@ == self.defines@.take(i as int),
        {
            r.push(self.defines[i]);
            proof {
                assert(r@ =~= self.defines@.take(i + 1));
            }
        }
        proof {
            assert(self.defines@.take(n as int) =~= self.defines@);
        }
        r
    }

    /// Whether there is an entry created last, still in the dictionary.
    pub fn has_last_word(&self) -> (b: bool)
        ensures
            b == (self@.last_word is Some && find_pos(self@.words, self@.last_word->0) >= 0),
    {
        match &self.last_word {
            Some(k) => match self.position(k) {
                Some(_) => true,
                None => false,
            },
            None => false,
        }
    }

    /// The code space's length fits in `usize`.
    pub proof fn lemma_code_space_fits(&self)
        ensures
            self@.defines.len() <= usize::MAX,
    {
        assert(self.defines.len() == self.defines@.len());
    }

    /// A copy of the name of the entry created last.
    pub fn last_word_name(&self) -> (r: Option<String>)
        ensures
            match r {
                Some(s) => self@.last_word == Some(s@),
                None => self@.last_word is None,
            },
    {
        match &self.last_word {
            Some(k) => Some(k.clone()),
            None => None,
        }
    }
}

} // verus!
