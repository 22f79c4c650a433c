use vstd::prelude::*;

use crate::table::{find_key, lemma_lookup_listed, lookup};

verus! {

/// The weight that stands for a probability of one. Weights are fixed-point
/// fractions of it; a draw is a uniform `u32`, so `draw / WEIGHT_ONE` lies in
/// `[0, 1)`.
pub const WEIGHT_ONE: u64 = 4294967296;

/// One alternative replacement for a symbol, with its weight.
pub struct Rule {
    pub result: Vec<char>,
    pub chance: u64,
}

/// The rules of a symbol: listed as `(symbol, alternatives)`. A symbol with no
/// listing is a terminal and rewrites to itself.
pub type RuleTable = Vec<(char, Vec<Rule>)>;

/// What the grammar engine is given: a seed, a number of passes and the rules.
pub struct LSystemConfig {
    pub iterations: u32,
    pub initial: Vec<char>,
    pub rules: RuleTable,
}

impl Default for LSystemConfig {
    fn default() -> (r: Self)
        ensures
            r.iterations == 0,
            r.initial@.len() == 0,
            r.rules@.len() == 0,
    {
        LSystemConfig { iterations: 0, initial: Vec::new(), rules: Vec::new() }
    }
}

/// Why a rewriting could not be completed.
#[derive(PartialEq, Eq, Structural, Debug, Clone, Copy)]
pub enum GenError {
    /// The draw fell past the cumulative weight of every alternative of `symbol`.
    SelectionExhausted { symbol: char, draw: u32 },
    /// The supplied draws ran out before the rewriting was done.
    DrawsExhausted,
}

/// The alternative chosen by `draw`: the first one whose cumulative weight
/// exceeds the draw.
pub open spec fn pick(options: Seq<Rule>, draw: int) -> Option<Seq<char>>
    decreases options.len(),
{
    if options.len() == 0 {
        None
    } else if draw < options[0].chance {
        Some(options[0].result@)
    } else {
        pick(options.drop_first(), draw - options[0].chance)
    }
}

/// The sum of the weights of a list of alternatives.
pub open spec fn weight_total(options: Seq<Rule>) -> int
    decreases options.len(),
{
    if options.len() == 0 {
        0
    } else {
        options[0].chance + weight_total(options.drop_first())
    }
}

/// Every listed symbol's weights sum to exactly one.
pub open spec fn weights_complete(rules: Seq<(char, Vec<Rule>)>) -> bool {
    forall|i: int| 0 <= i < rules.len() ==> weight_total(#[trigger] rules[i].1@) == WEIGHT_ONE
}

/// How many draws one pass over `symbols` takes: one per symbol that has rules.
pub open spec fn draws_for(symbols: Seq<char>, rules: Seq<(char, Vec<Rule>)>) -> nat
    decreases symbols.len(),
{
    if symbols.len() == 0 {
        0
    } else {
        draws_for(symbols.drop_last(), rules) + if lookup(rules, symbols.last()) is Some {
            1nat
        } else {
            0nat
        }
    }
}

/// One rewriting pass. Symbols with rules take the next draw in turn, from the
/// front of `draws`; other symbols are copied.
pub open spec fn rewrite_once(
    symbols: Seq<char>,
    rules: Seq<(char, Vec<Rule>)>,
    draws: Seq<u32>,
) -> Result<Seq<char>, GenError>
    decreases symbols.len(),
{
    if symbols.len() == 0 {
        Ok(Seq::empty())
    } else {
        let c = symbols.last();
        match rewrite_once(symbols.drop_last(), rules, draws) {
            Err(e) => Err(e),
            Ok(prefix) => match lookup(rules, c) {
                None => Ok(prefix.push(c)),
                Some(options) => {
                    let k = draws_for(symbols.drop_last(), rules);
                    if k >= draws.len() {
                        Err(GenError::DrawsExhausted)
                    } else {
                        match pick(options@, draws[k as int] as int) {
                            None => Err(GenError::SelectionExhausted { symbol: c, draw: draws[k as int] }),
                            Some(r) => Ok(prefix + r),
                        }
                    }
                }
            },
        }
    }
}

/// The sequence after `iterations` passes, each pass taking its draws after
/// those of the passes before it.
pub open spec fn rewritten(
    symbols: Seq<char>,
    rules: Seq<(char, Vec<Rule>)>,
    iterations: nat,
    draws: Seq<u32>,
) -> Result<Seq<char>, GenError>
    decreases iterations,
{
    if iterations == 0 {
        Ok(symbols)
    } else {
        match rewrite_once(symbols, rules, draws) {
            Err(e) => Err(e),
            Ok(next) => rewritten(
                next,
                rules,
                (iterations - 1) as nat,
                draws.skip(draws_for(symbols, rules) as int),
            ),
        }
    }
}

pub open spec fn seq_result(r: Result<Vec<char>, GenError>) -> Result<Seq<char>, GenError> {
    match r {
        Ok(v) => Ok(v@),
        Err(e) => Err(e),
    }
}

proof fn lemma_prefix_error(
    symbols: Seq<char>,
    rules: Seq<(char, Vec<Rule>)>,
    draws: Seq<u32>,
    j: int,
)
    requires
        0 <= j <= symbols.len(),
        rewrite_once(symbols.take(j), rules, draws) is Err,
    ensures
        rewrite_once(symbols, rules, draws) == rewrite_once(symbols.take(j), rules, draws),
    decreases symbols.len(),
{
    if j == symbols.len() {
        assert(symbols.take(j) =~= symbols);
    } else {
        assert(symbols.drop_last().take(j) =~= symbols.take(j));
        lemma_prefix_error(symbols.drop_last(), rules, draws, j);
    }
}

proof fn lemma_enough_draws(symbols: Seq<char>, rules: Seq<(char, Vec<Rule>)>, draws: Seq<u32>)
    requires
        draws.len() >= draws_for(symbols, rules),
    ensures
        rewrite_once(symbols, rules, draws) != Err::<Seq<char>, GenError>(GenError::DrawsExhausted),
    decreases symbols.len(),
{
    if symbols.len() > 0 {
        lemma_enough_draws(symbols.drop_last(), rules, draws);
    }
}

proof fn lemma_extra_draws(
    symbols: Seq<char>,
    rules: Seq<(char, Vec<Rule>)>,
    draws: Seq<u32>,
    extra: Seq<u32>,
)
    requires
        draws.len() >= draws_for(symbols, rules),
    ensures
        rewrite_once(symbols, rules, draws + extra) == rewrite_once(symbols, rules, draws),
    decreases symbols.len(),
{
    if symbols.len() > 0 {
        lemma_extra_draws(symbols.drop_last(), rules, draws, extra);
        let k = draws_for(symbols.drop_last(), rules);
        if k < draws.len() {
            assert((draws + extra)[k as int] == draws[k as int]);
        }
    }
}

proof fn lemma_pick_covered(options: Seq<Rule>, draw: int)
    requires
        0 <= draw < weight_total(options),
    ensures
        pick(options, draw) is Some,
    decreases options.len(),
{
    if options.len() > 0 && draw >= options[0].chance {
        lemma_pick_covered(options.drop_first(), draw - options[0].chance);
    }
}

proof fn lemma_complete_pass(symbols: Seq<char>, rules: Seq<(char, Vec<Rule>)>, draws: Seq<u32>)
    requires
        weights_complete(rules),
    ensures
        !(rewrite_once(symbols, rules, draws) matches Err(GenError::SelectionExhausted { .. })),
    decreases symbols.len(),
{
    if symbols.len() > 0 {
        lemma_complete_pass(symbols.drop_last(), rules, draws);
        let c = symbols.last();
        if lookup(rules, c) is Some {
            lemma_lookup_listed(rules, c);
            let i = choose|i: int| 0 <= i < rules.len() && rules[i].1 == lookup(rules, c)->Some_0;
            assert(weight_total(rules[i].1@) == WEIGHT_ONE);
            let k = draws_for(symbols.drop_last(), rules);
            if k < draws.len() {
                lemma_pick_covered(rules[i].1@, draws[k as int] as int);
            }
        }
    }
}

/// The position of the alternative that `draw` selects.
fn pick_option(options: &Vec<Rule>, draw: u32) -> (r: Option<usize>)
    ensures
        match r {
            Some(j) => j < options@.len() && pick(options@, draw as int) == Some(
                options@[j as int].result@,
            ),
            None => pick(options@, draw as int) is None,
        },
{
    let mut rest: u64 = draw as u64;
    let mut j: usize = 0;
    assert(options@.skip(0) =~= options@);
    while j < options.len()
        invariant
            j <= options@.len(),
            pick(options@, draw as int) == pick(options@.skip(j as int), rest as int),
        decreases options@.len() - j,
    {
        assert(options@.skip(j as int)[0] == options@[j as int]);
        assert(options@.skip(j as int).drop_first() =~= options@.skip(j + 1));
        let chance = options[j].chance;
        if rest < chance {
            return Some(j);
        }
        rest = rest - chance;
        j = j + 1;
    }
    None
}

fn append_all(out: &mut Vec<char>, src: &Vec<char>)
    ensures
        final(out)@ == old(out)@ + src@,
{
    let mut i: usize = 0;
    while i < src.len()
        invariant
            i <= src@.len(),
            out@ == old(out)@ + src@.take(i as int),
        decreases src@.len() - i,
    {
        assert(src@.take(i + 1) =~= src@.take(i as int).push(src@[i as int]));
        out.push(src[i]);
        i = i + 1;
    }
    assert(src@.take(src@.len() as int) =~= src@);
}

/// How many draws one pass over `symbols` takes.
fn count_rule_symbols(symbols: &Vec<char>, rules: &RuleTable) -> (r: usize)
    ensures
        r == draws_for(symbols@, rules@),
{
    let mut n: usize = 0;
    let mut i: usize = 0;
    assert(symbols@.take(0) =~= Seq::<char>::empty());
    while i < symbols.len()
        invariant
            i <= symbols@.len(),
            n <= i,
            n == draws_for(symbols@.take(i as int), rules@),
        decreases symbols@.len() - i,
    {
        assert(symbols@.take(i + 1).drop_last() =~= symbols@.take(i as int));
        if find_key(rules, symbols[i]).is_some() {
            n = n + 1;
        }
        i = i + 1;
    }
    assert(symbols@.take(symbols@.len() as int) =~= symbols@);
    n
}

/// One rewriting pass over `symbols`, taking draws from `draws[start..]`. On
/// success it also returns the position of the first draw left unused.
fn rewrite_pass(symbols: &Vec<char>, rules: &RuleTable, draws: &Vec<u32>, start: usize) -> (r:
    Result<(Vec<char>, usize), GenError>)
    requires
        start <= draws@.len(),
    ensures
        match r {
            Ok((out, end)) => rewrite_once(symbols@, rules@, draws@.skip(start as int)) == Ok::<
                Seq<char>,
                GenError,
            >(out@) && end == start + draws_for(symbols@, rules@) && end <= draws@.len(),
            Err(e) => rewrite_once(symbols@, rules@, draws@.skip(start as int)) == Err::<
                Seq<char>,
                GenError,
            >(e),
        },
{
    let ghost d = draws@.skip(start as int);
    let mut out: Vec<char> = Vec::new();
    let mut next: usize = start;
    let mut i: usize = 0;
    assert(symbols@.take(0) =~= Seq::<char>::empty());
    while i < symbols.len()
        invariant
            i <= symbols@.len(),
            start <= next <= draws@.len(),
            d == draws@.skip(start as int),
            rewrite_once(symbols@.take(i as int), rules@, d) == Ok::<Seq<char>, GenError>(out@),
            next == start + draws_for(symbols@.take(i as int), rules@),
        decreases symbols@.len() - i,
    {
        let c = symbols[i];
        assert(symbols@.take(i + 1).drop_last() =~= symbols@.take(i as int));
        assert(symbols@.take(i + 1).last() == c);
        match find_key(rules, c) {
            None => {
                out.push(c);
            },
            Some(k) => {
                if next >= draws.len() {
                    proof {
                        lemma_prefix_error(symbols@, rules@, d, i + 1);
                    }
                    return Err(GenError::DrawsExhausted);
                }
                let draw = draws[next];
                assert(d[(next - start) as int] == draw);
                match pick_option(&rules[k].1, draw) {
                    None => {
                        proof {
                            lemma_prefix_error(symbols@, rules@, d, i + 1);
                        }
                        return Err(GenError::SelectionExhausted { symbol: c, draw });
                    },
                    Some(j) => {
                        append_all(&mut out, &rules[k].1[j].result);
                        next = next + 1;
                    },
                }
            },
        }
        i = i + 1;
    }
    assert(symbols@.take(symbols@.len() as int) =~= symbols@);
    Ok((out, next))
}

/// Rewrites the seed `config.iterations` times, taking draws in order from
/// `draws`: the result is `rewritten` of the configuration and the draws.
pub fn generate(config: &LSystemConfig, draws: &Vec<u32>) -> (r: Result<Vec<char>, GenError>)
    ensures
        seq_result(r) == rewritten(
            config.initial@,
            config.rules@,
            config.iterations as nat,
            draws@,
        ),
{
    let ghost n = config.iterations as nat;
    let mut cur: Vec<char> = Vec::new();
    append_all(&mut cur, &config.initial);
    assert(cur@ =~= config.initial@);
    let mut pos: usize = 0;
    let mut k: u32 = 0;
    assert(draws@.skip(0) =~= draws@);
    while k < config.iterations
        invariant
            pos <= draws@.len(),
            k <= config.iterations,
            n == config.iterations,
            rewritten(cur@, config.rules@, (n - k) as nat, draws@.skip(pos as int)) == rewritten(
                config.initial@,
                config.rules@,
                n,
                draws@,
            ),
        decreases config.iterations - k,
    {
        match rewrite_pass(&cur, &config.rules, draws, pos) {
            Err(e) => {
                return Err(e);
            },
            Ok((next, end)) => {
                assert(draws@.skip(pos as int).skip(draws_for(cur@, config.rules@) as int)
                    =~= draws@.skip(end as int));
                cur = next;
                pos = end;
            },
        }
        k = k + 1;
    }
    Ok(cur)
}

/// Relies on rand::random (the thread-local generator): it returns some value
/// of the type, and nothing more is promised of it.
pub assume_specification<T>[ rand::random::<T> ]() -> (r: T)
    where
        rand::distributions::Standard: rand::distributions::Distribution<T>,
;

/// `n` draws from the thread-local random generator.
fn fresh_draws(n: usize) -> (r: Vec<u32>)
    ensures
        r@.len() == n,
{
    let mut v: Vec<u32> = Vec::new();
    let mut i: usize = 0;
    while i < n
        invariant
            i <= n,
            v@.len() == i,
        decreases n - i,
    {
        v.push(rand::random::<u32>());
        i = i + 1;
    }
    v
}

/// The symbol sequence that a grammar produced.
pub struct LSystem {
    symbols: Vec<char>,
}

impl View for LSystem {
    type V = Seq<char>;

    closed spec fn view(&self) -> Seq<char> {
        self.symbols@
    }
}

impl LSystem {
    /// Rewrites the configuration's seed with fresh random draws.
    ///
    /// Whatever the draws, the outcome is that of `rewritten` for some draw
    /// sequence; with no passes it is the seed; with complete weights it is a
    /// success; the draws never run out.
    pub fn new(config: LSystemConfig) -> (r: Result<LSystem, GenError>)
        ensures
            config.iterations == 0 ==> (r matches Ok(l) && l@ == config.initial@),
            weights_complete(config.rules@) ==> r is Ok,
            !(r matches Err(GenError::DrawsExhausted)),
            match r {
                Ok(l) => exists|d: Seq<u32>|
                    #[trigger] rewritten(config.initial@, config.rules@, config.iterations as nat, d)
                        == Ok::<Seq<char>, GenError>(l@),
                Err(e) => exists|d: Seq<u32>|
                    #[trigger] rewritten(config.initial@, config.rules@, config.iterations as nat, d)
                        == Err::<Seq<char>, GenError>(e),
            },
    {
        let ghost init = config.initial@;
        let ghost rv = config.rules@;
        let ghost n = config.iterations as nat;
        let LSystemConfig { iterations, initial, rules } = config;
        let mut cur = initial;
        let ghost mut used: Seq<u32> = Seq::empty();
        proof {
            assert forall|extra: Seq<u32>|
                #[trigger] rewritten(init, rv, n, used + extra) == rewritten(cur@, rv, n, extra) by {
                assert(used + extra =~= extra);
            }
        }
        let mut k: u32 = 0;
        while k < iterations
            invariant
                k <= iterations,
                n == iterations,
                rv == rules@,
                n == config.iterations as nat,
                rv == config.rules@,
                init == config.initial@,
                forall|extra: Seq<u32>|
                    #[trigger] rewritten(init, rv, n, used + extra) == rewritten(
                        cur@,
                        rv,
                        (n - k) as nat,
                        extra,
                    ),
            decreases iterations - k,
        {
            let need = count_rule_symbols(&cur, &rules);
            let fresh = fresh_draws(need);
            assert(fresh@.skip(0) =~= fresh@);
            match rewrite_pass(&cur, &rules, &fresh, 0) {
                Err(e) => {
                    proof {
                        lemma_enough_draws(cur@, rv, fresh@);
                        if weights_complete(rv) {
                            lemma_complete_pass(cur@, rv, fresh@);
                        }
                        assert(rewritten(init, rv, n, used + fresh@) == Err::<Seq<char>, GenError>(
                            e,
                        ));
                    }
                    return Err(e);
                },
                Ok((next, _end)) => {
                    proof {
                        assert forall|extra: Seq<u32>|
                            #[trigger] rewritten(init, rv, n, (used + fresh@) + extra)
                                == rewritten(next@, rv, (n - (k + 1)) as nat, extra) by {
                            assert((used + fresh@) + extra =~= used + (fresh@ + extra));
                            assert(rewritten(init, rv, n, used + (fresh@ + extra)) == rewritten(
                                cur@,
                                rv,
                                (n - k) as nat,
                                fresh@ + extra,
                            ));
                            lemma_extra_draws(cur@, rv, fresh@, extra);
                            assert((fresh@ + extra).skip(draws_for(cur@, rv) as int) =~= extra);
                        }
                        used = used + fresh@;
                    }
                    cur = next;
                },
            }
            k = k + 1;
        }
        proof {
            assert(used + Seq::<u32>::empty() =~= used);
            assert(rewritten(init, rv, n, used + Seq::<u32>::empty()) == rewritten(
                cur@,
                rv,
                0,
                Seq::<u32>::empty(),
            ));
            if weights_complete(rv) {
                lemma_complete_weights_never_exhausted(init, rv, n, used);
            }
        }
        Ok(LSystem { symbols: cur })
    }

    /// The produced symbols.
    pub fn symbols(&self) -> (r: &[char])
        ensures
            r@ == self@,
    {
        self.symbols.as_slice()
    }
}

/// With no passes the seed comes back unchanged, whatever the rules and draws.
pub proof fn lemma_zero_iterations(
    initial: Seq<char>,
    rules: Seq<(char, Vec<Rule>)>,
    draws: Seq<u32>,
)
    ensures
        rewritten(initial, rules, 0, draws) == Ok::<Seq<char>, GenError>(initial),
{
}

/// Where every symbol's weights sum to one, no draw sequence makes a selection
/// fail.
pub proof fn lemma_complete_weights_never_exhausted(
    initial: Seq<char>,
    rules: Seq<(char, Vec<Rule>)>,
    iterations: nat,
    draws: Seq<u32>,
)
    requires
        weights_complete(rules),
    ensures
        !(rewritten(initial, rules, iterations, draws) matches Err(
            GenError::SelectionExhausted { .. },
        )),
    decreases iterations,
{
    if iterations > 0 {
        lemma_complete_pass(initial, rules, draws);
        if let Ok(next) = rewrite_once(initial, rules, draws) {
            lemma_complete_weights_never_exhausted(
                next,
                rules,
                (iterations - 1) as nat,
                draws.skip(draws_for(initial, rules) as int),
            );
        }
    }
}

/// Two rewritings of the same seed with the same rules, pass count and draws
/// give the same result.
pub proof fn lemma_generate_deterministic(
    a: &LSystemConfig,
    b: &LSystemConfig,
    draws_a: Seq<u32>,
    draws_b: Seq<u32>,
)
    requires
        a.initial@ == b.initial@,
        a.rules@ == b.rules@,
        a.iterations == b.iterations,
        draws_a == draws_b,
    ensures
        rewritten(a.initial@, a.rules@, a.iterations as nat, draws_a) == rewritten(
            b.initial@,
            b.rules@,
            b.iterations as nat,
            draws_b,
        ),
{
}

} // verus!
