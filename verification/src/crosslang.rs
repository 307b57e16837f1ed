//! Cross-implementation result collection.
//!
//! Each language's validator run is recorded under its language name; a
//! later run for the same language replaces the earlier record. Running
//! the external validators and printing the summary belong to the
//! command-line layer.

use vstd::prelude::*;

verus! {

/// One language's validation run.
pub struct LanguageResult {
    pub language: String,
    pub success: bool,
    pub output: String,
    pub errors: Vec<String>,
}

/// The collected per-language results, one per language name.
pub struct CrossLanguageValidator {
    pub results: Vec<LanguageResult>,
}

/// First recorded result for a language reading `k`, or -1.
pub open spec fn find_language(rs: Seq<LanguageResult>, k: Seq<char>) -> int
    decreases rs.len(),
{
    if rs.len() == 0 {
        -1
    } else if rs[0].language@ == k {
        0
    } else {
        let rest = find_language(rs.drop_first(), k);
        if rest == -1 {
            -1
        } else {
            rest + 1
        }
    }
}

pub proof fn lemma_find_language(rs: Seq<LanguageResult>, k: Seq<char>)
    ensures
        -1 <= find_language(rs, k) < rs.len(),
        find_language(rs, k) == -1 ==> forall|i: int|
            0 <= i < rs.len() ==> (#[trigger] rs[i]).language@ != k,
        find_language(rs, k) >= 0 ==> {
            &&& rs[find_language(rs, k)].language@ == k
            &&& forall|i: int| 0 <= i < find_language(rs, k) ==> (#[trigger] rs[i]).language@ != k
        },
    decreases rs.len(),
{
    if rs.len() > 0 && rs[0].language@ != k {
        lemma_find_language(rs.drop_first(), k);
        assert forall|i: int| 1 <= i < rs.len() implies rs.drop_first()[i - 1] == rs[i] by {}
    }
}

impl CrossLanguageValidator {
    /// A collector with no results recorded.
    pub fn new() -> (v: CrossLanguageValidator)
        ensures
            v.results@.len() == 0,
    {
        CrossLanguageValidator { results: Vec::new() }
    }

    /// Record one language's run, replacing any earlier record for the
    /// same language.
    pub fn record_result(&mut self, result: LanguageResult)
        ensures
            final(self).results@ == {
                let i = find_language(old(self).results@, result.language@);
                if i == -1 {
                    old(self).results@.push(result)
                } else {
                    old(self).results@.update(i, result)
                }
            },
    {
        let n = self.results.len();
        for i in 0..n
            invariant
                n == self.results@.len(),
                self.results@ == old(self).results@,
                forall|j: int| 0 <= j < i ==> (#[trigger] self.results@[j]).language@ != result.language@,
        {
            if self.results[i].language.eq(&result.language) {
                proof {
                    lemma_find_language(self.results@, result.language@);
                    if find_language(self.results@, result.language@) != i as int {
                        assert(self.results@[find_language(self.results@, result.language@)].language@
                            == result.language@);
                    }
                }
                self.results[i] = result;
                return;
            }
        }
        proof {
            lemma_find_language(self.results@, result.language@);
            if find_language(self.results@, result.language@) >= 0 {
                assert(self.results@[find_language(self.results@, result.language@)].language@
                    == result.language@);
            }
        }
        self.results.push(result);
    }

    /// How many recorded runs succeeded.
    pub fn success_count(&self) -> (n: usize)
        ensures
            n as int == spec_success_count(self.results@),
    {
        proof {
            lemma_success_count_bound(self.results@);
            assert(self.results@.skip(0) =~= self.results@);
        }
        let m = self.results.len();
        let mut count: usize = 0;
        for i in 0..m
            invariant
                m == self.results@.len(),
                count <= i,
                count + spec_success_count(self.results@.skip(i as int)) == spec_success_count(
                    self.results@,
                ),
        {
            proof {
                assert(self.results@.skip(i as int)[0] == self.results@[i as int]);
                assert(self.results@.skip(i as int).drop_first() =~= self.results@.skip(i as int + 1));
                lemma_success_count_bound(self.results@.skip(i as int + 1));
            }
            if self.results[i].success {
                count = count + 1;
            }
        }
        count
    }
}

/// How many of the recorded runs succeeded.
pub open spec fn spec_success_count(rs: Seq<LanguageResult>) -> int
    decreases rs.len(),
{
    if rs.len() == 0 {
        0
    } else {
        (if rs[0].success {
            1int
        } else {
            0int
        }) + spec_success_count(rs.drop_first())
    }
}

/// The success count lies between zero and the number of runs.
pub proof fn lemma_success_count_bound(rs: Seq<LanguageResult>)
    ensures
        0 <= spec_success_count(rs) <= rs.len(),
    decreases rs.len(),
{
    if rs.len() > 0 {
        lemma_success_count_bound(rs.drop_first());
    }
}

} // verus!
