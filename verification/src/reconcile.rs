//! Key reconciliation as mathematics: what it is for every language of a set
//! to hold every key of the set, and what follows from it.

use vstd::prelude::*;
use crate::language::LanguageView;

verus! {

/// Some language of the sequence holds the key.
pub open spec fn some_language_has_key(languages: Seq<LanguageView>, key: Seq<char>) -> bool {
    exists|i: int|
        0 <= i < languages.len() && (#[trigger] languages[i]).translations.contains_key(key)
}

/// The keys that any language of the sequence holds.
pub open spec fn all_keys(languages: Seq<LanguageView>) -> Set<Seq<char>> {
    Set::new(|key: Seq<char>| some_language_has_key(languages, key))
}

/// The map with an empty translation for each of the keys that it lacks.
pub open spec fn filled(map: Map<Seq<char>, Seq<char>>, keys: Set<Seq<char>>) -> Map<
    Seq<char>,
    Seq<char>,
> {
    Map::new(
        |key: Seq<char>| map.contains_key(key) || keys.contains(key),
        |key: Seq<char>|
            if map.contains_key(key) {
                map[key]
            } else {
                Seq::<char>::empty()
            },
    )
}

/// The languages, each filled up to the keys of all of them.
pub open spec fn reconciled(languages: Seq<LanguageView>) -> Seq<LanguageView> {
    Seq::new(
        languages.len(),
        |i: int|
            LanguageView {
                translations: filled(languages[i].translations, all_keys(languages)),
                ..languages[i]
            },
    )
}

/// Any two languages of the sequence hold the same keys.
pub open spec fn same_keys(languages: Seq<LanguageView>) -> bool {
    forall|i: int, j: int|
        0 <= i < languages.len() && 0 <= j < languages.len() ==> (
        #[trigger] languages[i]).translations.dom() == (#[trigger] languages[j]).translations.dom()
}

/// A key is held among the first `a + 1` languages if it is held among the
/// first `a` or by the language behind them; among the first none, no key is
/// held.
pub proof fn lemma_some_language_take(languages: Seq<LanguageView>, a: int, key: Seq<char>)
    requires
        0 <= a < languages.len(),
    ensures
        some_language_has_key(languages.take(a + 1), key) <==> some_language_has_key(
            languages.take(a),
            key,
        ) || languages[a].translations.contains_key(key),
        !some_language_has_key(languages.take(0), key),
{
    let more = languages.take(a + 1);
    let fewer = languages.take(a);
    if some_language_has_key(more, key) {
        let i = choose|i: int|
            0 <= i < more.len() && (#[trigger] more[i]).translations.contains_key(key);
        if i < a {
            assert(fewer[i] == more[i]);
            assert(fewer[i].translations.contains_key(key));
        } else {
            assert(more[i] == languages[a]);
        }
    }
    if some_language_has_key(fewer, key) {
        let i = choose|i: int|
            0 <= i < fewer.len() && (#[trigger] fewer[i]).translations.contains_key(key);
        assert(fewer[i] == more[i]);
        assert(more[i].translations.contains_key(key));
    }
    if languages[a].translations.contains_key(key) {
        assert(more[a] == languages[a]);
        assert(more[a].translations.contains_key(key));
    }
}

/// After reconciliation every language of a set holds the keys that any
/// language held before, so that any two of them hold the same keys.
pub proof fn lemma_reconciled_same_keys(languages: Seq<LanguageView>)
    ensures
        same_keys(reconciled(languages)),
        forall|i: int|
            0 <= i < languages.len() ==> (#[trigger] reconciled(languages)[i]).translations.dom()
                == all_keys(languages),
{
    let after = reconciled(languages);
    assert forall|i: int| 0 <= i < languages.len() implies (#[trigger] after[i]).translations.dom()
        == all_keys(languages) by {
        assert forall|key: Seq<char>| languages[i].translations.contains_key(key) implies all_keys(
            languages,
        ).contains(key) by {
            assert(some_language_has_key(languages, key));
        }
        assert(after[i].translations.dom() =~= all_keys(languages));
    }
}

/// Reconciling keeps each translation that a language held, and gives the
/// keys that it lacked an empty one.
pub proof fn lemma_reconciled_values(languages: Seq<LanguageView>, i: int, key: Seq<char>)
    requires
        0 <= i < languages.len(),
        all_keys(languages).contains(key),
    ensures
        reconciled(languages)[i].translations.contains_key(key),
        languages[i].translations.contains_key(key) ==> reconciled(languages)[i].translations[key]
            == languages[i].translations[key],
        !languages[i].translations.contains_key(key) ==> reconciled(
            languages,
        )[i].translations[key] == Seq::<char>::empty(),
{
}

/// Reconciling twice in a row changes no more than reconciling once.
pub proof fn lemma_reconcile_idempotent(languages: Seq<LanguageView>)
    ensures
        reconciled(reconciled(languages)) == reconciled(languages),
{
    let once = reconciled(languages);
    let twice = reconciled(once);
    lemma_reconciled_same_keys(languages);
    assert(all_keys(once) =~= all_keys(languages)) by {
        assert forall|key: Seq<char>| all_keys(once).contains(key) <==> all_keys(
            languages,
        ).contains(key) by {
            if some_language_has_key(once, key) {
                let i = choose|i: int|
                    0 <= i < once.len() && (#[trigger] once[i]).translations.contains_key(key);
                assert(once[i].translations.dom().contains(key));
            }
            if some_language_has_key(languages, key) {
                let i = choose|i: int|
                    0 <= i < languages.len() && (#[trigger] languages[i]).translations.contains_key(
                        key,
                    );
                assert(once[i].translations.contains_key(key));
            }
        }
    }
    assert forall|i: int| 0 <= i < once.len() implies twice[i] == once[i] by {
        assert(once[i].translations.dom() == all_keys(languages));
        assert(twice[i].translations =~= once[i].translations);
    }
    assert(twice =~= once);
}

/// Reconciling changes nothing in a set whose languages hold the same keys.
pub proof fn lemma_reconcile_keeps_same_keys(languages: Seq<LanguageView>)
    requires
        same_keys(languages),
    ensures
        reconciled(languages) == languages,
{
    let after = reconciled(languages);
    assert forall|i: int| 0 <= i < languages.len() implies after[i] == languages[i] by {
        assert forall|key: Seq<char>| all_keys(languages).contains(key) implies (
        #[trigger] languages[i].translations.contains_key(key)) by {
            let j = choose|j: int|
                0 <= j < languages.len() && (#[trigger] languages[j]).translations.contains_key(
                    key,
                );
            assert(languages[i].translations.dom() == languages[j].translations.dom());
            assert(languages[j].translations.dom().contains(key));
        }
        assert(after[i].translations =~= languages[i].translations);
    }
    assert(after =~= languages);
}

} // verus!
