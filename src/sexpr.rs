//! S-expressions: lists and symbols, and the text they are written as.

use vstd::prelude::*;
use vstd::string::StrSliceExecFns;

verus! {

/// Whether `c` has the Unicode `White_Space` property.
pub open spec fn is_white_space(c: char) -> bool {
    let n = c as u32;
    ||| 9 <= n <= 13
    ||| n == 32
    ||| n == 0x85
    ||| n == 0xa0
    ||| n == 0x1680
    ||| 0x2000 <= n <= 0x200a
    ||| n == 0x2028
    ||| n == 0x2029
    ||| n == 0x202f
    ||| n == 0x205f
    ||| n == 0x3000
}

/// Relies on char::is_whitespace: true exactly for the characters with the Unicode
/// `White_Space` property.
pub assume_specification[ char::is_whitespace ](c: char) -> (r: bool)
    ensures
        r == is_white_space(c),
;

/// Relies on String::push_str: appends the characters of `string`.
pub assume_specification[ String::push_str ](s: &mut String, string: &str)
    ensures
        final(s)@ == old(s)@ + string@,
;

/// Relies on String::push: appends one character.
pub assume_specification[ String::push ](s: &mut String, ch: char)
    ensures
        final(s)@ == old(s)@.push(ch),
;

/// An s-expression.
#[derive(Debug)]
pub enum Value {
    /// A list.
    List(Vec<Value>),
    /// A symbol.
    Sym(String),
}

/// Whether a character of a symbol must be escaped: white space, parentheses, `|` and `\`.
pub open spec fn quoted_char(c: char) -> bool {
    is_white_space(c) || c == '(' || c == ')' || c == '|' || c == '\\'
}

/// The characters of `s`, each one that must be escaped preceded by `\`.
pub open spec fn escaped(s: Seq<char>) -> Seq<char>
    decreases s.len(),
{
    if s.len() == 0 {
        Seq::empty()
    } else {
        escaped(s.drop_last()) + if quoted_char(s.last()) {
            seq!['\\', s.last()]
        } else {
            seq![s.last()]
        }
    }
}

/// The text of a symbol: as it is, unless it is empty or holds a character that must be
/// escaped; then between `|`s, with those characters escaped.
pub open spec fn sym_text(s: Seq<char>) -> Seq<char> {
    if s.len() == 0 || exists|i: int| 0 <= i < s.len() && quoted_char(#[trigger] s[i]) {
        seq!['|'] + escaped(s) + seq!['|']
    } else {
        s
    }
}

/// The text of an s-expression: a symbol as `sym_text` says, a list as its items' texts
/// between parentheses, separated by single spaces.
pub open spec fn value_text(v: Value) -> Seq<char>
    decreases v,
{
    match v {
        Value::Sym(s) => sym_text(s@),
        Value::List(l) => seq!['('] + list_text(l@) + seq![')'],
    }
}

/// The texts of `items`, separated by single spaces.
pub open spec fn list_text(items: Seq<Value>) -> Seq<char>
    decreases items,
{
    if items.len() == 0 {
        Seq::empty()
    } else if items.len() == 1 {
        value_text(items[0])
    } else {
        list_text(items.drop_last()) + seq![' '] + value_text(items.last())
    }
}

/// Returns whether the given character needs quoting.
pub fn needs_quoting(ch: char) -> (r: bool)
    ensures
        r == quoted_char(ch),
{
    ch.is_whitespace() || ch == '(' || ch == ')' || ch == '|' || ch == '\\'
}

/// Appends the text of symbol `s` to `out`.
fn push_sym(out: &mut String, s: &String)
    ensures
        final(out)@ == old(out)@ + sym_text(s@),
{
    let text = s.as_str();
    let n = text.unicode_len();
    let mut any = false;
    let mut i: usize = 0;
    while i < n
        invariant
            n == s@.len(),
            text@ == s@,
            i <= n,
            any == exists|j: int| 0 <= j < i && quoted_char(#[trigger] s@[j]),
        decreases n - i,
    {
        if needs_quoting(text.get_char(i)) {
            any = true;
        }
        i = i + 1;
    }
    if !any && n > 0 {
        out.push_str(text);
        return;
    }
    out.push('|');
    let ghost start = out@;
    let mut i: usize = 0;
    assert(s@.subrange(0, 0) =~= Seq::<char>::empty());
    while i < n
        invariant
            n == s@.len(),
            text@ == s@,
            i <= n,
            out@ == start + escaped(s@.subrange(0, i as int)),
        decreases n - i,
    {
        let ch = text.get_char(i);
        let ghost before = out@;
        if needs_quoting(ch) {
            out.push('\\');
        }
        out.push(ch);
        proof {
            let p = s@.subrange(0, i + 1);
            assert(p.drop_last() =~= s@.subrange(0, i as int));
            assert(p.last() == ch);
        }
        i = i + 1;
        assert(out@ =~= start + escaped(s@.subrange(0, i as int)));
    }
    assert(s@.subrange(0, n as int) =~= s@);
    out.push('|');
    assert(out@ =~= old(out)@ + sym_text(s@));
}

proof fn lemma_item_decreases(v: Value, i: int)
    requires
        v is List,
        0 <= i < v->List_0@.len(),
    ensures
        decreases_to!(v => v->List_0@[i]),
{
}

impl Value {
    /// Appends the text of this s-expression to `out`.
    fn push_text(&self, out: &mut String)
        ensures
            final(out)@ == old(out)@ + value_text(*self),
        decreases self,
    {
        match self {
            Value::Sym(s) => push_sym(out, s),
            Value::List(l) => {
                let ghost start = out@;
                out.push('(');
                let mut i: usize = 0;
                assert(l@.subrange(0, 0) =~= Seq::<Value>::empty());
                while i < l.len()
                    invariant
                        *self == Value::List(*l),
                        i <= l@.len(),
                        out@ == start + seq!['('] + list_text(l@.subrange(0, i as int)),
                    decreases l@.len() - i,
                {
                    if i > 0 {
                        out.push(' ');
                    }
                    proof {
                        lemma_item_decreases(*self, i as int);
                    }
                    l[i].push_text(out);
                    proof {
                        let p = l@.subrange(0, i + 1);
                        assert(p.drop_last() =~= l@.subrange(0, i as int));
                        assert(p.last() == l@[i as int]);
                        assert(p[0] == l@[0]);
                    }
                    i = i + 1;
                    assert(out@ =~= start + seq!['('] + list_text(l@.subrange(0, i as int)));
                }
                assert(l@.subrange(0, i as int) =~= l@);
                out.push(')');
                assert(out@ =~= old(out)@ + value_text(*self));
            },
        }
    }

    /// The text of this s-expression, as it is written: see `value_text`.
    pub fn to_text(&self) -> (r: String)
        ensures
            r@ == value_text(*self),
    {
        let mut out = String::new();
        self.push_text(&mut out);
        assert(out@ =~= value_text(*self));
        out
    }
}

} // verus!
