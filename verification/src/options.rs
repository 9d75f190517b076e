use crate::case::Case;
use vstd::prelude::*;

verus! {

/// The options given to the `strings` attribute, e.g. `#[strings(defaults, snake)]`.
#[derive(Clone, Copy, Debug, PartialEq, Eq, Structural)]
pub struct Options {
    /// Variants without a `string` attribute get their name as string.
    pub defaults: bool,
    /// A `Display` impl is generated (when every variant has a string).
    pub display: bool,
    /// The case that default strings are converted to.
    pub case: Option<Case>,
}

/// Why an option list is refused.  `arg` is the position of the offending
/// argument in the list.
#[derive(Clone, Copy, Debug, PartialEq, Eq, Structural)]
pub enum OptionsError {
    /// `defaults` or `display` given twice.
    DuplicateOption { arg: usize },
    /// More than one of `lowercase`, `snake`, `kebab`.
    DuplicateCase { arg: usize },
    /// A word that is no option.
    UnknownOption { arg: usize },
    /// A case option without `defaults`.
    CaseWithoutDefault,
}

/// What an option word stands for.
#[derive(Clone, Copy, Debug, PartialEq, Eq, Structural)]
pub enum Word {
    Defaults,
    Display,
    CaseWord(Case),
}

/// The option that an argument names, if any.
pub open spec fn word_of(s: Seq<char>) -> Option<Word> {
    if s == "defaults"@ {
        Some(Word::Defaults)
    } else if s == "display"@ {
        Some(Word::Display)
    } else if s == "lowercase"@ {
        Some(Word::CaseWord(Case::Flat))
    } else if s == "snake"@ {
        Some(Word::CaseWord(Case::Snake))
    } else if s == "kebab"@ {
        Some(Word::CaseWord(Case::Kebab))
    } else {
        None
    }
}

/// Whether a word is one of the case words.
pub open spec fn is_case_word(w: Option<Word>) -> bool {
    w matches Some(Word::CaseWord(_))
}

/// The fault of argument `i`, judged against the arguments before it.
pub open spec fn arg_fault(args: Seq<Seq<char>>, i: int) -> Option<OptionsError> {
    match word_of(args[i]) {
        None => Some(OptionsError::UnknownOption { arg: i as usize }),
        Some(Word::CaseWord(_)) => if exists|j: int|
            0 <= j < i && is_case_word(#[trigger] word_of(args[j])) {
            Some(OptionsError::DuplicateCase { arg: i as usize })
        } else {
            None
        },
        Some(w) => if exists|j: int| 0 <= j < i && #[trigger] word_of(args[j]) == Some(w) {
            Some(OptionsError::DuplicateOption { arg: i as usize })
        } else {
            None
        },
    }
}

/// The fault of the first faulty argument among the first `n`.
pub open spec fn first_fault(args: Seq<Seq<char>>, n: int) -> Option<OptionsError>
    decreases n,
{
    if n <= 0 {
        None
    } else {
        match first_fault(args, n - 1) {
            Some(e) => Some(e),
            None => arg_fault(args, n - 1),
        }
    }
}

/// Whether some argument names the given word.
pub open spec fn names(args: Seq<Seq<char>>, w: Word) -> bool {
    exists|i: int| 0 <= i < args.len() && #[trigger] word_of(args[i]) == Some(w)
}

/// Whether some argument names a case.
pub open spec fn names_case(args: Seq<Seq<char>>) -> bool {
    exists|i: int| 0 <= i < args.len() && is_case_word(#[trigger] word_of(args[i]))
}

/// The case named by the arguments (there is at most one in a valid list).
pub open spec fn named_case(args: Seq<Seq<char>>) -> Option<Case> {
    if names_case(args) {
        let i = choose|i: int|
            0 <= i < args.len() && is_case_word(#[trigger] word_of(args[i]));
        Some(word_of(args[i])->Some_0->CaseWord_0)
    } else {
        None
    }
}

/// The outcome of reading an option list.
pub open spec fn options_outcome(args: Seq<Seq<char>>) -> Result<Options, OptionsError> {
    match first_fault(args, args.len() as int) {
        Some(e) => Err(e),
        None => {
            let o = Options {
                defaults: names(args, Word::Defaults),
                display: names(args, Word::Display),
                case: named_case(args),
            };
            if o.case is Some && !o.defaults {
                Err(OptionsError::CaseWithoutDefault)
            } else {
                Ok(o)
            }
        },
    }
}

/// Once an argument is at fault, the first fault stays the same for longer prefixes.
pub proof fn lemma_first_fault_stable(args: Seq<Seq<char>>, m: int, n: int)
    requires
        m <= n,
        first_fault(args, m) is Some,
    ensures
        first_fault(args, n) == first_fault(args, m),
    decreases n - m,
{
    if m < n {
        lemma_first_fault_stable(args, m, n - 1);
    }
}

/// No fault among the first `n` arguments means no argument among them is at fault.
pub proof fn lemma_first_fault_none(args: Seq<Seq<char>>, n: int)
    requires
        n >= 0,
    ensures
        first_fault(args, n) is None <==> forall|i: int| 0 <= i < n ==> #[trigger] arg_fault(args, i) is None,
    decreases n,
{
    if n > 0 {
        lemma_first_fault_none(args, n - 1);
        if first_fault(args, n - 1) is Some {
            lemma_first_fault_stable(args, n - 1, n);
        }
    }
}

/// An option list is accepted exactly when every word is a known option,
/// neither flag is given twice, at most one case is named, and a case comes
/// with `defaults`.  The accepted options are those named.
pub proof fn lemma_accepted_options(args: Seq<Seq<char>>)
    ensures
        options_outcome(args) is Ok <==> (forall|i: int| 0 <= i < args.len() ==> #[trigger] arg_fault(args, i) is None)
            && (names_case(args) ==> names(args, Word::Defaults)),
        options_outcome(args) matches Ok(o) ==> {
            &&& o.defaults == names(args, Word::Defaults)
            &&& o.display == names(args, Word::Display)
            &&& o.case is Some == names_case(args)
            &&& o.case is Some ==> o.defaults
        },
{
    lemma_first_fault_none(args, args.len() as int);
}

/// Whether two option words cannot both stand in one list: two case words,
/// or one flag twice.
pub open spec fn clash(a: Option<Word>, b: Option<Word>) -> bool {
    (is_case_word(a) && is_case_word(b)) || (a is Some && !is_case_word(a) && a == b)
}

/// A list whose words are all options, no two of which clash.
pub open spec fn clean(args: Seq<Seq<char>>) -> bool {
    &&& forall|i: int| 0 <= i < args.len() ==> (#[trigger] word_of(args[i])) is Some
    &&& forall|i: int, j: int|
        0 <= i < args.len() && 0 <= j < args.len() && i != j ==> !clash(
            #[trigger] word_of(args[i]),
            #[trigger] word_of(args[j]),
        )
}

/// No argument is at fault exactly when the list is clean.
pub proof fn lemma_no_fault_clean(args: Seq<Seq<char>>)
    ensures
        (forall|i: int| 0 <= i < args.len() ==> #[trigger] arg_fault(args, i) is None) <==> clean(
            args,
        ),
{
    if forall|i: int| 0 <= i < args.len() ==> #[trigger] arg_fault(args, i) is None {
        assert forall|i: int| 0 <= i < args.len() implies (#[trigger] word_of(args[i])) is Some by {
            assert(arg_fault(args, i) is None);
        }
        assert forall|i: int, j: int|
            0 <= i < args.len() && 0 <= j < args.len() && i != j implies !clash(
            #[trigger] word_of(args[i]),
            #[trigger] word_of(args[j]),
        ) by {
            let (lo, hi) = if i < j {
                (i, j)
            } else {
                (j, i)
            };
            assert(arg_fault(args, hi) is None);
            if clash(word_of(args[lo]), word_of(args[hi])) {
                if is_case_word(word_of(args[hi])) {
                    assert(is_case_word(word_of(args[lo])));
                } else {
                    assert(word_of(args[lo]) == word_of(args[hi]));
                }
            }
        }
    }
    if clean(args) {
        assert forall|i: int| 0 <= i < args.len() implies #[trigger] arg_fault(args, i) is None by {
            assert(word_of(args[i]) is Some);
            if is_case_word(word_of(args[i])) {
                assert forall|j: int| 0 <= j < i implies !is_case_word(#[trigger] word_of(args[j])) by {
                    assert(!clash(word_of(args[j]), word_of(args[i])));
                }
            } else {
                assert forall|j: int| 0 <= j < i implies #[trigger] word_of(args[j]) != word_of(args[i]) by {
                    assert(!clash(word_of(args[j]), word_of(args[i])));
                }
            }
        }
    }
}

/// `b` is `a` in another order: `b[i] == a[perm[i]]`, with `inv` the inverse of `perm`.
pub open spec fn is_rearrangement(
    a: Seq<Seq<char>>,
    b: Seq<Seq<char>>,
    perm: Seq<int>,
    inv: Seq<int>,
) -> bool {
    &&& a.len() == b.len()
    &&& perm.len() == b.len()
    &&& inv.len() == a.len()
    &&& forall|i: int|
        0 <= i < b.len() ==> 0 <= #[trigger] perm[i] < a.len() && b[i] == a[perm[i]] && inv[perm[i]]
            == i
    &&& forall|j: int| 0 <= j < a.len() ==> 0 <= #[trigger] inv[j] < b.len() && perm[inv[j]] == j
}

/// An accepted option list gives the same options in any order.
pub proof fn lemma_options_order_free(
    args: Seq<Seq<char>>,
    other: Seq<Seq<char>>,
    perm: Seq<int>,
    inv: Seq<int>,
)
    requires
        is_rearrangement(args, other, perm, inv),
        options_outcome(args) is Ok,
    ensures
        options_outcome(other) == options_outcome(args),
{
    lemma_accepted_options(args);
    lemma_accepted_options(other);
    lemma_no_fault_clean(args);
    lemma_no_fault_clean(other);
    assert forall|i: int| 0 <= i < other.len() implies (#[trigger] word_of(other[i])) is Some by {
        assert(word_of(args[perm[i]]) is Some);
    }
    assert forall|i: int, j: int|
        0 <= i < other.len() && 0 <= j < other.len() && i != j implies !clash(
        #[trigger] word_of(other[i]),
        #[trigger] word_of(other[j]),
    ) by {
        assert(perm[i] != perm[j]);
        assert(!clash(word_of(args[perm[i]]), word_of(args[perm[j]])));
    }
    assert(clean(other));
    assert forall|w: Word| names(other, w) == names(args, w) by {
        if names(other, w) {
            let i = choose|i: int| 0 <= i < other.len() && #[trigger] word_of(other[i]) == Some(w);
            assert(word_of(args[perm[i]]) == Some(w));
        }
        if names(args, w) {
            let j = choose|j: int| 0 <= j < args.len() && #[trigger] word_of(args[j]) == Some(w);
            assert(other[inv[j]] == args[j]);
            assert(word_of(other[inv[j]]) == Some(w));
        }
    }
    if names_case(other) {
        let i = choose|i: int| 0 <= i < other.len() && is_case_word(#[trigger] word_of(other[i]));
        assert(is_case_word(word_of(args[perm[i]])));
        assert(names_case(args));
        let ka = choose|k: int| 0 <= k < args.len() && is_case_word(#[trigger] word_of(args[k]));
        let ko = choose|k: int| 0 <= k < other.len() && is_case_word(#[trigger] word_of(other[k]));
        assert(word_of(other[ko]) == word_of(args[perm[ko]]));
        if perm[ko] != ka {
            assert(clash(word_of(args[perm[ko]]), word_of(args[ka])));
        }
    }
    if names_case(args) {
        let j = choose|j: int| 0 <= j < args.len() && is_case_word(#[trigger] word_of(args[j]));
        assert(other[inv[j]] == args[j]);
        assert(is_case_word(word_of(other[inv[j]])));
    }
    assert(named_case(other) == named_case(args));
    assert(names(other, Word::Defaults) == names(args, Word::Defaults));
    assert(names(other, Word::Display) == names(args, Word::Display));
}

impl Default for Options {
    /// The options with nothing set.
    fn default() -> (res: Options)
        ensures
            res == (Options { defaults: false, display: false, case: None }),
    {
        Options { defaults: false, display: false, case: None }
    }
}

impl Options {
    /// Sets a flag, refusing one that was set already.  The flag is set either way.
    pub fn set_bool(opt: &mut bool, arg: usize) -> (res: Result<(), OptionsError>)
        ensures
            *final(opt),
            res == (if *old(opt) {
                Err(OptionsError::DuplicateOption { arg })
            } else {
                Ok(())
            }),
    {
        let was = *opt;
        *opt = true;
        if was {
            Err(OptionsError::DuplicateOption { arg })
        } else {
            Ok(())
        }
    }

    /// Sets `defaults`, refusing it a second time.
    pub fn set_default(&mut self, arg: usize) -> (res: Result<(), OptionsError>)
        ensures
            final(self).defaults,
            final(self).display == old(self).display,
            final(self).case == old(self).case,
            res == (if old(self).defaults {
                Err(OptionsError::DuplicateOption { arg })
            } else {
                Ok(())
            }),
    {
        Self::set_bool(&mut self.defaults, arg)
    }

    /// Sets `display`, refusing it a second time.
    pub fn set_display(&mut self, arg: usize) -> (res: Result<(), OptionsError>)
        ensures
            final(self).display,
            final(self).defaults == old(self).defaults,
            final(self).case == old(self).case,
            res == (if old(self).display {
                Err(OptionsError::DuplicateOption { arg })
            } else {
                Ok(())
            }),
    {
        Self::set_bool(&mut self.display, arg)
    }

    /// Sets the case, refusing a second one.
    pub fn set_case(&mut self, arg: usize, case: Case) -> (res: Result<(), OptionsError>)
        ensures
            final(self).defaults == old(self).defaults,
            final(self).display == old(self).display,
            old(self).case is Some ==> final(self).case == old(self).case && res == Err::<
                (),
                OptionsError,
            >(OptionsError::DuplicateCase { arg }),
            old(self).case is None ==> final(self).case == Some(case) && res is Ok,
    {
        if self.case.is_some() {
            Err(OptionsError::DuplicateCase { arg })
        } else {
            self.case = Some(case);
            Ok(())
        }
    }

    /// Reads the option list of the `strings` attribute, given as the words of
    /// its comma-separated identifiers in order.
    pub fn parse(args: &Vec<String>) -> (res: Result<Options, OptionsError>)
        ensures
            res == options_outcome(args.deep_view()),
    {
        let ghost a = args.deep_view();
        let defaults_word = String::from_str("defaults");
        let display_word = String::from_str("display");
        let lowercase_word = String::from_str("lowercase");
        let snake_word = String::from_str("snake");
        let kebab_word = String::from_str("kebab");
        let mut this = Options::default();
        let mut i: usize = 0;
        while i < args.len()
            invariant
                a == args.deep_view(),
                0 <= i <= args.len(),
                defaults_word@ == "defaults"@,
                display_word@ == "display"@,
                lowercase_word@ == "lowercase"@,
                snake_word@ == "snake"@,
                kebab_word@ == "kebab"@,
                first_fault(a, i as int) is None,
                this.defaults == exists|j: int| 0 <= j < i && #[trigger] word_of(a[j]) == Some(Word::Defaults),
                this.display == exists|j: int| 0 <= j < i && #[trigger] word_of(a[j]) == Some(Word::Display),
                this.case is None <==> !exists|j: int| 0 <= j < i && is_case_word(#[trigger] word_of(a[j])),
                forall|j: int| 0 <= j < i && is_case_word(#[trigger] word_of(a[j]))
                    ==> word_of(a[j]) == Some(Word::CaseWord(this.case->0)),
            decreases args.len() - i,
        {
            let arg = &args[i];
            assert(arg@ == a[i as int]);
            let step = if *arg == defaults_word {
                this.set_default(i)
            } else if *arg == display_word {
                this.set_display(i)
            } else if *arg == lowercase_word {
                this.set_case(i, Case::Flat)
            } else if *arg == snake_word {
                this.set_case(i, Case::Snake)
            } else if *arg == kebab_word {
                this.set_case(i, Case::Kebab)
            } else {
                Err(OptionsError::UnknownOption { arg: i })
            };
            match step {
                Err(e) => {
                    proof {
                        assert(first_fault(a, i + 1) == Some(e));
                        lemma_first_fault_stable(a, i + 1, a.len() as int);
                    }
                    return Err(e);
                },
                Ok(()) => {},
            }
            assert(first_fault(a, i + 1) is None);
            i = i + 1;
        }
        assert(first_fault(a, a.len() as int) is None);
        proof {
            if names_case(a) {
                let k = choose|k: int|
                    0 <= k < a.len() && is_case_word(#[trigger] word_of(a[k]));
                assert(word_of(a[k]) == Some(Word::CaseWord(this.case->0)));
            }
            assert(names(a, Word::Defaults) == this.defaults);
            assert(names(a, Word::Display) == this.display);
        }
        if this.case.is_some() && !this.defaults {
            return Err(OptionsError::CaseWithoutDefault);
        }
        Ok(this)
    }
}

} // verus!
