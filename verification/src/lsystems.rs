//! Lindenmayer systems: parallel rewriting of a string by character rules.

use vstd::prelude::*;
use vstd::string::*;

verus! {

/// A rewriting rule: every occurrence of `from` becomes `to`.
#[derive(Debug, Clone)]
pub struct Rule {
    pub from: char,
    pub to: String,
}

/// What one character becomes: the replacement of the first rule that
/// names it, or the character itself where no rule does.
pub open spec fn replacement(rules: Seq<Rule>, ch: char) -> Seq<char>
    decreases rules.len(),
{
    if rules.len() == 0 {
        seq![ch]
    } else if rules[0].from == ch {
        rules[0].to@
    } else {
        replacement(rules.drop_first(), ch)
    }
}

/// One generation: every character of `text` replaced at once.
pub open spec fn rewritten_once(rules: Seq<Rule>, text: Seq<char>) -> Seq<char>
    decreases text.len(),
{
    if text.len() == 0 {
        Seq::empty()
    } else {
        rewritten_once(rules, text.drop_last()) + replacement(rules, text.last())
    }
}

/// The text after the given number of generations.
pub open spec fn rewritten(rules: Seq<Rule>, text: Seq<char>, generations: nat) -> Seq<char>
    decreases generations,
{
    if generations == 0 {
        text
    } else {
        rewritten_once(rules, rewritten(rules, text, (generations - 1) as nat))
    }
}

/// `String::push`: appends one character to the end of the string.
#[verifier::external_body]
fn push_char(out: &mut String, ch: char)
    ensures
        final(out)@ == old(out)@.push(ch),
{
    out.push(ch);
}

/// Appends to `out` what `ch` becomes under `rules`.
fn push_replacement(out: &mut String, rules: &Vec<Rule>, ch: char)
    ensures
        final(out)@ == old(out)@ + replacement(rules@, ch),
{
    let mut k: usize = 0;
    assert(rules@.skip(0) =~= rules@);
    while k < rules.len()
        invariant
            k <= rules.len(),
            *out == *old(out),
            replacement(rules@, ch) == replacement(rules@.skip(k as int), ch),
        decreases rules.len() - k,
    {
        let ghost rest = rules@.skip(k as int);
        assert(rest[0] == rules@[k as int]);
        assert(rest.drop_first() =~= rules@.skip(k + 1));
        if rules[k].from == ch {
            out.append(rules[k].to.as_str());
            return ;
        }
        k = k + 1;
    }
    assert(rules@.skip(k as int).len() == 0);
    push_char(out, ch);
}

/// Rewrites every character of `text` once.
fn rewrite_once(text: &str, rules: &Vec<Rule>) -> (next: String)
    ensures
        next@ == rewritten_once(rules@, text@),
{
    let mut next = String::new();
    for ch in it: text.chars()
        invariant
            it.seq() == text@,
            next@ == rewritten_once(rules@, text@.take(it.index() as int)),
    {
        let ghost done = text@.take(it.index() as int);
        let ghost more = text@.take(it.index() + 1);
        assert(more.drop_last() =~= done);
        assert(more.last() == ch);
        push_replacement(&mut next, rules, ch);
    }
    assert(text@.take(text@.len() as int) =~= text@);
    next
}

/// Applies the rules to the starting text for the given number of generations.
pub fn generate(start: &str, rules: &Vec<Rule>, iterations: usize) -> (text: String)
    ensures
        text@ == rewritten(rules@, start@, iterations as nat),
{
    let mut current = String::from_str(start);
    let mut done: usize = 0;
    while done < iterations
        invariant
            done <= iterations,
            current@ == rewritten(rules@, start@, done as nat),
        decreases iterations - done,
    {
        current = rewrite_once(current.as_str(), rules);
        done = done + 1;
    }
    current
}

/// Generations add up: rewriting for `first` generations and the result
/// for `second` more is rewriting for `first + second` generations.
pub proof fn lemma_generations_add(rules: Seq<Rule>, text: Seq<char>, first: nat, second: nat)
    ensures
        rewritten(rules, rewritten(rules, text, first), second) == rewritten(
            rules,
            text,
            first + second,
        ),
    decreases second,
{
    if second > 0 {
        lemma_generations_add(rules, text, first, (second - 1) as nat);
        assert(rewritten(rules, text, first + second) == rewritten_once(
            rules,
            rewritten(rules, text, (first + second - 1) as nat),
        ));
    }
}

/// Without rules every text stays as it is.
pub proof fn lemma_no_rules_no_change(text: Seq<char>)
    ensures
        rewritten_once(Seq::<Rule>::empty(), text) == text,
    decreases text.len(),
{
    if text.len() > 0 {
        lemma_no_rules_no_change(text.drop_last());
        assert(text.drop_last() + seq![text.last()] =~= text);
    } else {
        assert(text =~= Seq::<char>::empty());
    }
}

} // verus!
