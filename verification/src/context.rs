//! The name-to-value context of a block and the substitution of `{NAME}`
//! placeholders in a pattern.
use crate::text::{
    find_char, first_index, lemma_first_index, lemma_first_index_unique, push_char, string_of,
    to_chars,
};
use vstd::prelude::*;
use vstd::string::StringExecFns;

verus! {

/// The map that a list of `(name, value)` entries stands for: a later entry
/// replaces an earlier one of the same name.
pub open spec fn entries_map(entries: Seq<(String, String)>) -> Map<Seq<char>, Seq<char>>
    decreases entries.len(),
{
    if entries.len() == 0 {
        Map::empty()
    } else {
        entries_map(entries.drop_last()).insert(entries.last().0@, entries.last().1@)
    }
}

/// A mapping from variable names to their resolved values.
#[derive(Clone, Debug)]
pub struct Context {
    entries: Vec<(String, String)>,
}

impl View for Context {
    type V = Map<Seq<char>, Seq<char>>;

    closed spec fn view(&self) -> Map<Seq<char>, Seq<char>> {
        entries_map(self.entries@)
    }
}

impl Context {
    /// The empty context.
    pub fn new() -> (c: Self)
        ensures
            c@ == Map::<Seq<char>, Seq<char>>::empty(),
    {
        Context { entries: Vec::new() }
    }

    /// Binds `name` to `value`, in place of what `name` was bound to before.
    pub fn insert(&mut self, name: String, value: String)
        ensures
            final(self)@ == old(self)@.insert(name@, value@),
    {
        let ghost before = self.entries@;
        self.entries.push((name, value));
        assert(self.entries@.drop_last() == before);
    }

    /// The value that `name` is bound to, if any.
    pub fn get(&self, name: &String) -> (r: Option<&String>)
        ensures
            match r {
                Some(v) => self@.contains_key(name@) && v@ == self@[name@],
                None => !self@.contains_key(name@),
            },
    {
        let mut i: usize = self.entries.len();
        assert(self.entries@.take(i as int) == self.entries@);
        while i > 0
            invariant
                i <= self.entries.len(),
                entries_map(self.entries@).contains_key(name@) == entries_map(
                    self.entries@.take(i as int),
                ).contains_key(name@),
                entries_map(self.entries@).contains_key(name@) ==> entries_map(
                    self.entries@,
                )[name@] == entries_map(self.entries@.take(i as int))[name@],
            decreases i,
        {
            let ghost prefix = self.entries@.take(i as int);
            assert(prefix.drop_last() == self.entries@.take(i - 1));
            assert(prefix.last() == self.entries@[i - 1]);
            if self.entries[i - 1].0 == *name {
                return Some(&self.entries[i - 1].1);
            }
            i -= 1;
        }
        assert(self.entries@.take(0).len() == 0);
        None
    }

    /// Adds every binding of `other`, in place of what its names were bound to before.
    pub fn extend(&mut self, other: &Context)
        ensures
            final(self)@ == old(self)@.union_prefer_right(other@),
    {
        let n = other.entries.len();
        let mut i: usize = 0;
        proof {
            assert(other.entries@.take(0) == Seq::<(String, String)>::empty());
            assert(self.entries@ + Seq::<(String, String)>::empty() == self.entries@);
        }
        while i < n
            invariant
                i <= n == other.entries.len(),
                entries_map(self.entries@) == entries_map(old(self).entries@).union_prefer_right(
                    entries_map(other.entries@.take(i as int)),
                ),
            decreases n - i,
        {
            let name = other.entries[i].0.clone();
            let value = other.entries[i].1.clone();
            let ghost before = self.entries@;
            self.entries.push((name, value));
            proof {
                let taken = other.entries@.take(i + 1);
                assert(taken.drop_last() == other.entries@.take(i as int));
                assert(taken.last() == other.entries@[i as int]);
                assert(self.entries@.drop_last() == before);
                assert(entries_map(self.entries@) =~= entries_map(
                    old(self).entries@,
                ).union_prefer_right(entries_map(taken)));
            }
            i += 1;
        }
        assert(other.entries@.take(n as int) == other.entries@);
    }
}

/// The name of the placeholder at the start of `pattern`: the text between
/// a `{` that opens the pattern and the first `}` after it.
pub open spec fn placeholder_name(pattern: Seq<char>) -> Option<Seq<char>> {
    if pattern.len() > 0 && pattern[0] == '{' && 0 < first_index(pattern, '}') < pattern.len() {
        Some(pattern.subrange(1, first_index(pattern, '}')))
    } else {
        None
    }
}

/// Whether `pattern` starts with a placeholder whose name `ctx` binds.
pub open spec fn starts_bound(pattern: Seq<char>, ctx: Map<Seq<char>, Seq<char>>) -> bool {
    placeholder_name(pattern) is Some && ctx.contains_key(placeholder_name(pattern).unwrap())
}

/// The text of `pattern` with each placeholder `{NAME}` whose `NAME` is bound
/// in `ctx` replaced by the value of `NAME`, from left to right. A placeholder
/// whose name is not bound stays as it is.
pub open spec fn expansion(pattern: Seq<char>, ctx: Map<Seq<char>, Seq<char>>) -> Seq<char>
    decreases pattern.len(),
{
    if pattern.len() == 0 {
        pattern
    } else if starts_bound(pattern, ctx) {
        ctx[placeholder_name(pattern).unwrap()] + expansion(
            pattern.skip(first_index(pattern, '}') + 1),
            ctx,
        )
    } else {
        seq![pattern[0]] + expansion(pattern.skip(1), ctx)
    }
}

/// A pattern none of whose placeholders names a bound name is its own expansion.
pub proof fn lemma_expansion_without_bound_name(pattern: Seq<char>, ctx: Map<Seq<char>, Seq<char>>)
    requires
        forall|i: int| 0 <= i < pattern.len() ==> !starts_bound(#[trigger] pattern.skip(i), ctx),
    ensures
        expansion(pattern, ctx) == pattern,
    decreases pattern.len(),
{
    if pattern.len() > 0 {
        assert(pattern.skip(0) == pattern);
        let rest = pattern.skip(1);
        assert forall|i: int| 0 <= i < rest.len() implies !starts_bound(
            #[trigger] rest.skip(i),
            ctx,
        ) by {
            assert(rest.skip(i) == pattern.skip(i + 1));
        }
        lemma_expansion_without_bound_name(rest, ctx);
        assert(seq![pattern[0]] + rest == pattern);
    }
}

/// Text without `{` before a pattern stays as it is.
pub proof fn lemma_expansion_after_text(
    text: Seq<char>,
    pattern: Seq<char>,
    ctx: Map<Seq<char>, Seq<char>>,
)
    requires
        !text.contains('{'),
    ensures
        expansion(text + pattern, ctx) == text + expansion(pattern, ctx),
    decreases text.len(),
{
    if text.len() == 0 {
        assert(text + pattern == pattern);
        assert(text + expansion(pattern, ctx) == expansion(pattern, ctx));
    } else {
        let whole = text + pattern;
        assert(whole[0] == text[0]);
        assert(text.contains(text[0]));
        let rest = text.skip(1);
        assert forall|c: char| rest.contains(c) implies text.contains(c) by {
            let i = choose|i: int| 0 <= i < rest.len() && rest[i] == c;
            assert(text[i + 1] == c);
        }
        lemma_expansion_after_text(rest, pattern, ctx);
        assert(whole.skip(1) == rest + pattern);
        assert(seq![text[0]] + (rest + expansion(pattern, ctx)) == text + expansion(pattern, ctx));
    }
}

/// A placeholder before a pattern is replaced by the value of its name where
/// the name is bound, and stays as it is where the name is not bound. The
/// name holds no brace.
pub proof fn lemma_expansion_of_placeholder(
    name: Seq<char>,
    pattern: Seq<char>,
    ctx: Map<Seq<char>, Seq<char>>,
)
    requires
        !name.contains('{'),
        !name.contains('}'),
    ensures
        expansion(seq!['{'] + name + seq!['}'] + pattern, ctx) == (if ctx.contains_key(name) {
            ctx[name]
        } else {
            seq!['{'] + name + seq!['}']
        }) + expansion(pattern, ctx),
{
    let placeholder = seq!['{'] + name + seq!['}'];
    let whole = placeholder + pattern;
    let close = name.len() as int + 1;
    assert(whole[0] == '{');
    assert(whole[close] == '}');
    assert forall|j: int| 0 <= j < close implies whole[j] != '}' by {
        if j > 0 {
            assert(whole[j] == name[j - 1]);
            assert(name.contains(name[j - 1]));
        }
    }
    lemma_first_index_unique(whole, '}', close);
    assert(whole.subrange(1, close) == name);
    assert(whole.skip(close + 1) == pattern);
    if !ctx.contains_key(name) {
        let tail = name + seq!['}'];
        assert(whole.skip(1) == tail + pattern);
        assert forall|c: char| tail.contains(c) implies c != '{' by {
            let i = choose|i: int| 0 <= i < tail.len() && tail[i] == c;
            if i < name.len() {
                assert(tail[i] == name[i]);
                assert(name.contains(name[i]));
            }
        }
        lemma_expansion_after_text(tail, pattern, ctx);
        assert(seq!['{'] + (tail + expansion(pattern, ctx)) == placeholder + expansion(
            pattern,
            ctx,
        ));
    }
}

/// Replaces the placeholders of `pattern` that `ctx` binds.
pub fn substitute(pattern: &str, ctx: &Context) -> (r: String)
    ensures
        r@ == expansion(pattern@, ctx@),
{
    let p = to_chars(pattern);
    let n = p.len();
    let mut out = String::new();
    let mut i: usize = 0;
    assert(p@.skip(0) == p@);
    while i < n
        invariant
            i <= n == p.len(),
            out@ + expansion(p@.skip(i as int), ctx@) == expansion(p@, ctx@),
        decreases n - i,
    {
        let ghost rest = p@.skip(i as int);
        let ghost done = out@;
        let mut next: usize = i + 1;
        let mut replaced = false;
        if p[i] == '{' {
            let close = find_char(&p, i, n, '}');
            proof {
                assert(rest == p@.subrange(i as int, n as int));
                lemma_first_index(rest, '}');
            }
            if close < n {
                let name = string_of(&p, i + 1, close);
                assert(name@ == rest.subrange(1, close - i));
                match ctx.get(&name) {
                    Some(value) => {
                        out.append(value.as_str());
                        next = close + 1;
                        replaced = true;
                        proof {
                            assert(rest.skip(close - i + 1) == p@.skip(close + 1));
                            assert(done + value@ + expansion(p@.skip(close + 1), ctx@) == done + (
                            value@ + expansion(p@.skip(close + 1), ctx@)));
                        }
                    },
                    None => {},
                }
            }
        }
        if !replaced {
            push_char(&mut out, p[i]);
            proof {
                lemma_first_index(rest, '}');
                assert(rest.skip(1) == p@.skip(i + 1));
                assert(done.push(p@[i as int]) + expansion(p@.skip(i + 1), ctx@) == done + (
                seq![rest[0]] + expansion(rest.skip(1), ctx@)));
            }
        }
        i = next;
    }
    assert(p@.skip(n as int).len() == 0);
    assert(out@ + Seq::<char>::empty() == out@);
    out
}

} // verus!
