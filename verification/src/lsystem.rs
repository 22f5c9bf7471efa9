//! L-system grammars.
//!
//! An [`LSystem`] is an initiator string, a table of symbol rewrite rules and an
//! iteration count. Expansion rewrites the whole string once per iteration:
//! every symbol is replaced by its rule's replacement, and a symbol without
//! a rule passes through unchanged. Symbols are ASCII bytes; the tree
//! generator interprets the expanded string as a turtle program.

use vstd::prelude::*;

use vstd::slice::slice_to_vec;
use vstd::string::StringSliceAdditionalSpecFns;

verus! {

/// The replacement for one symbol: the first matching rule's right-hand
/// side, or the symbol itself when no rule matches.
pub open spec fn rule_replacement(rules: Seq<(u8, Seq<u8>)>, sym: u8) -> Seq<u8>
    decreases rules.len(),
{
    if rules.len() == 0 {
        seq![sym]
    } else if rules[0].0 == sym {
        rules[0].1
    } else {
        rule_replacement(rules.drop_first(), sym)
    }
}

/// One rewriting pass: every symbol replaced, in order.
pub open spec fn rewrite_once(rules: Seq<(u8, Seq<u8>)>, s: Seq<u8>) -> Seq<u8>
    decreases s.len(),
{
    if s.len() == 0 {
        Seq::empty()
    } else {
        rule_replacement(rules, s[0]) + rewrite_once(rules, s.drop_first())
    }
}

/// `n` rewriting passes starting from `s`; zero passes leave `s` unchanged.
pub open spec fn expand_spec(rules: Seq<(u8, Seq<u8>)>, s: Seq<u8>, n: nat) -> Seq<u8>
    decreases n,
{
    if n == 0 {
        s
    } else {
        expand_spec(rules, rewrite_once(rules, s), (n - 1) as nat)
    }
}

/// An L-system grammar: initiator, rewrite rules and iteration count.
pub struct LSystem {
    initiator: Vec<u8>,
    rules: Vec<(u8, Vec<u8>)>,
    iterations: u32,
}

impl LSystem {
    /// The initiator string.
    pub closed spec fn spec_initiator(self) -> Seq<u8> {
        self.initiator@
    }

    /// The rule table, in insertion order.
    pub closed spec fn spec_rules(self) -> Seq<(u8, Seq<u8>)> {
        Seq::new(self.rules@.len(), |i: int| (self.rules@[i].0, self.rules@[i].1@))
    }

    /// The iteration count.
    pub closed spec fn spec_iterations(self) -> u32 {
        self.iterations
    }

    /// What expanding this system yields.
    pub open spec fn spec_expand(self) -> Seq<u8> {
        expand_spec(self.spec_rules(), self.spec_initiator(), self.spec_iterations() as nat)
    }

    /// An empty system: empty initiator, no rules, zero iterations.
    pub fn new() -> (r: LSystem)
        ensures
            r.spec_initiator() =~= Seq::<u8>::empty(),
            r.spec_rules() =~= Seq::<(u8, Seq<u8>)>::empty(),
            r.spec_iterations() == 0,
    {
        LSystem { initiator: Vec::new(), rules: Vec::new(), iterations: 0 }
    }

    /// Sets the initiator to the bytes of `s`.
    pub fn initiator(self, s: &str) -> (r: LSystem)
        ensures
            r.spec_initiator() == s.spec_bytes(),
            r.spec_rules() == self.spec_rules(),
            r.spec_iterations() == self.spec_iterations(),
    {
        let initiator = slice_to_vec(s.as_bytes());
        let r = LSystem { initiator, ..self };
        proof {
            assert(r.spec_rules() =~= self.spec_rules());
        }
        r
    }

    /// Appends a rewrite rule mapping `symbol` to the bytes of
    /// `replacement`. An earlier rule for the same symbol wins.
    pub fn rule(self, symbol: u8, replacement: &str) -> (r: LSystem)
        ensures
            r.spec_rules() == self.spec_rules().push((symbol, replacement.spec_bytes())),
            r.spec_initiator() == self.spec_initiator(),
            r.spec_iterations() == self.spec_iterations(),
    {
        let rep = slice_to_vec(replacement.as_bytes());
        let mut rules = self.rules;
        rules.push((symbol, rep));
        let r = LSystem { rules, ..self };
        proof {
            assert(r.spec_rules() =~= self.spec_rules().push((symbol, replacement.spec_bytes())));
        }
        r
    }

    /// Sets the iteration count.
    pub fn iterations(self, n: u32) -> (r: LSystem)
        ensures
            r.spec_iterations() == n,
            r.spec_initiator() == self.spec_initiator(),
            r.spec_rules() == self.spec_rules(),
    {
        let r = LSystem { iterations: n, ..self };
        proof {
            assert(r.spec_rules() =~= self.spec_rules());
        }
        r
    }

    /// Finishes the builder chain.
    pub fn build(self) -> (r: LSystem)
        ensures
            r == self,
    {
        self
    }

    /// The replacement for one symbol under this rule table.
    fn replacement_for(&self, sym: u8) -> (r: Option<&Vec<u8>>)
        ensures
            match r {
                Some(v) => v@ == rule_replacement(self.spec_rules(), sym) && v@.len() >= 0,
                None => rule_replacement(self.spec_rules(), sym) =~= seq![sym],
            },
    {
        let n = self.rules.len();
        let mut i: usize = 0;
        proof {
            assert(self.spec_rules().skip(0) =~= self.spec_rules());
        }
        while i < n
            invariant
                n == self.rules@.len(),
                i <= n,
                rule_replacement(self.spec_rules(), sym) == rule_replacement(
                    self.spec_rules().skip(i as int),
                    sym,
                ),
                forall|j: int| 0 <= j < i ==> (#[trigger] self.rules@[j]).0 != sym,
            decreases n - i,
        {
            proof {
                let t = self.spec_rules().skip(i as int);
                assert(t[0] == self.spec_rules()[i as int]);
                assert(t.drop_first() =~= self.spec_rules().skip(i as int + 1));
            }
            if self.rules[i].0 == sym {
                return Some(&self.rules[i].1);
            }
            i = i + 1;
        }
        proof {
            assert(self.spec_rules().skip(n as int) =~= Seq::<(u8, Seq<u8>)>::empty());
        }
        None
    }

    /// Expands the initiator: applies the rule table `iterations` times, every
    /// symbol rewritten in order on each pass. Deterministic by contract:
    /// the result is a function of initiator, rules and iteration count alone,
    /// and zero iterations return the initiator unchanged.
    pub fn expand(&self) -> (r: Vec<u8>)
        ensures
            r@ == self.spec_expand(),
            self.spec_iterations() == 0 ==> r@ == self.spec_initiator(),
    {
        let mut current: Vec<u8> = slice_to_vec(self.initiator.as_slice());
        let mut pass: u32 = 0;
        let n = self.iterations;
        while pass < n
            invariant
                n == self.spec_iterations(),
                pass <= n,
                expand_spec(self.spec_rules(), current@, (n - pass) as nat) == self.spec_expand(),
            decreases n - pass,
        {
            current = self.rewrite_pass(&current);
            pass = pass + 1;
        }
        current
    }

    /// One rewriting pass over a symbol string.
    fn rewrite_pass(&self, s: &Vec<u8>) -> (r: Vec<u8>)
        ensures
            r@ == rewrite_once(self.spec_rules(), s@),
    {
        let mut out: Vec<u8> = Vec::new();
        let len = s.len();
        let mut i: usize = 0;
        proof {
            assert(rewrite_prefix(self.spec_rules(), s@, 0) =~= Seq::<u8>::empty());
        }
        while i < len
            invariant
                len == s@.len(),
                i <= len,
                out@ == rewrite_prefix(self.spec_rules(), s@, i as int),
            decreases len - i,
        {
            let sym = s[i];
            match self.replacement_for(sym) {
                Some(rep) => {
                    let mut copy = slice_to_vec(rep.as_slice());
                    out.append(&mut copy);
                },
                None => {
                    out.push(sym);
                    proof {
                        assert(rule_replacement(self.spec_rules(), sym) =~= seq![sym]);
                    }
                },
            }
            proof {
                lemma_rewrite_prefix_step(self.spec_rules(), s@, i as int);
            }
            i = i + 1;
        }
        proof {
            lemma_rewrite_prefix_full(self.spec_rules(), s@);
        }
        out
    }
}

/// The rewriting of the first `i` symbols of `s`.
pub open spec fn rewrite_prefix(rules: Seq<(u8, Seq<u8>)>, s: Seq<u8>, i: int) -> Seq<u8>
    decreases i,
{
    if i <= 0 {
        Seq::empty()
    } else {
        rewrite_prefix(rules, s, i - 1) + rule_replacement(rules, s[i - 1])
    }
}

/// Extending the rewritten prefix by one symbol appends that symbol's
/// replacement.
proof fn lemma_rewrite_prefix_step(rules: Seq<(u8, Seq<u8>)>, s: Seq<u8>, i: int)
    requires
        0 <= i < s.len(),
    ensures
        rewrite_prefix(rules, s, i + 1) == rewrite_prefix(rules, s, i) + rule_replacement(
            rules,
            s[i],
        ),
{
}

/// The full rewritten prefix is the full rewriting pass.
proof fn lemma_rewrite_prefix_full(rules: Seq<(u8, Seq<u8>)>, s: Seq<u8>)
    ensures
        rewrite_prefix(rules, s, s.len() as int) == rewrite_once(rules, s),
    decreases s.len(),
{
    if s.len() == 0 {
        assert(rewrite_prefix(rules, s, 0) =~= rewrite_once(rules, s));
    } else {
        let tail = s.drop_first();
        lemma_rewrite_prefix_full(rules, tail);
        lemma_prefix_shift(rules, s, s.len() as int);
        assert(rewrite_once(rules, s) == rule_replacement(rules, s[0]) + rewrite_once(
            rules,
            tail,
        ));
    }
}

/// A rewritten prefix of `s` splits as the first symbol's replacement plus
/// the corresponding prefix of the remaining symbols.
proof fn lemma_prefix_shift(rules: Seq<(u8, Seq<u8>)>, s: Seq<u8>, i: int)
    requires
        1 <= i <= s.len(),
    ensures
        rewrite_prefix(rules, s, i) =~= rule_replacement(rules, s[0]) + rewrite_prefix(
            rules,
            s.drop_first(),
            i - 1,
        ),
    decreases i,
{
    if i == 1 {
        reveal_with_fuel(rewrite_prefix, 2);
        assert(rewrite_prefix(rules, s, 1) =~= Seq::<u8>::empty() + rule_replacement(
            rules,
            s[0],
        ));
        assert(rewrite_prefix(rules, s.drop_first(), 0) =~= Seq::<u8>::empty());
    } else {
        lemma_prefix_shift(rules, s, i - 1);
        assert(s.drop_first()[i - 2] == s[i - 1]);
    }
}

} // verus!
