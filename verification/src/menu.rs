//! `MMenu`: a small text-menu helper.  Entries are keyed by a lowercased
//! selector; a choice is valid when it exists and is enabled.

use vstd::prelude::*;
use crate::text::{lower_of, to_lower};

verus! {

/// One menu entry: what is shown, and whether it can be chosen.
struct MenuEntry {
    displayed: String,
    enabled: bool,
}

/// The menu: entries in insertion order, one per lowercased selector.
pub struct MMenu {
    menu: Vec<(String, MenuEntry)>,
}

/// The first entry with the given selector, as (displayed, enabled).
pub open spec fn menu_lookup(s: Seq<(Seq<char>, Seq<char>, bool)>, k: Seq<char>) -> Option<
    (Seq<char>, bool),
>
    decreases s.len(),
{
    if s.len() == 0 {
        None
    } else if s[0].0 == k {
        Some((s[0].1, s[0].2))
    } else {
        menu_lookup(s.drop_first(), k)
    }
}

/// The menu after adding an entry: an existing selector is updated in
/// place, a new one is appended.
pub open spec fn menu_upsert(
    s: Seq<(Seq<char>, Seq<char>, bool)>,
    k: Seq<char>,
    d: Seq<char>,
    e: bool,
) -> Seq<(Seq<char>, Seq<char>, bool)>
    decreases s.len(),
{
    if s.len() == 0 {
        seq![(k, d, e)]
    } else if s[0].0 == k {
        seq![(k, d, e)] + s.drop_first()
    } else {
        seq![s[0]] + menu_upsert(s.drop_first(), k, d, e)
    }
}

/// The menu after changing one selector's enabledness; unknown selectors
/// leave it unchanged.
pub open spec fn menu_set_avail(
    s: Seq<(Seq<char>, Seq<char>, bool)>,
    k: Seq<char>,
    e: bool,
) -> Seq<(Seq<char>, Seq<char>, bool)>
    decreases s.len(),
{
    if s.len() == 0 {
        s
    } else if s[0].0 == k {
        seq![(s[0].0, s[0].1, e)] + s.drop_first()
    } else {
        seq![s[0]] + menu_set_avail(s.drop_first(), k, e)
    }
}

/// The display lines of the enabled entries, in menu order: selector,
/// space, displayed text.
pub open spec fn menu_lines(s: Seq<(Seq<char>, Seq<char>, bool)>) -> Seq<Seq<char>>
    decreases s.len(),
{
    if s.len() == 0 {
        Seq::empty()
    } else if s[0].2 {
        seq![s[0].0 + seq![' '] + s[0].1] + menu_lines(s.drop_first())
    } else {
        menu_lines(s.drop_first())
    }
}

impl View for MMenu {
    type V = Seq<(Seq<char>, Seq<char>, bool)>;

    closed spec fn view(&self) -> Seq<(Seq<char>, Seq<char>, bool)> {
        self.menu@.map_values(|e: (String, MenuEntry)| (e.0@, e.1.displayed@, e.1.enabled))
    }
}

impl MMenu {
    /// An empty menu.
    pub fn new() -> (r: MMenu)
        ensures
            r@ == Seq::<(Seq<char>, Seq<char>, bool)>::empty(),
    {
        let r = MMenu { menu: Vec::new() };
        proof {
            assert(r@ =~= Seq::<(Seq<char>, Seq<char>, bool)>::empty());
        }
        r
    }

    /// Adds an item to the menu; if an entry with the same selector exists,
    /// updates it instead.
    #[verifier::loop_isolation(false)]
    pub fn add_entry(&mut self, selector: &str, displayed: &str, enabled: bool)
        ensures
            final(self)@ == menu_upsert(old(self)@, lower_of(selector@), displayed@, enabled),
    {
        let key = to_lower(selector);
        let n = self.menu.len();
        let ghost orig = self@;
        let ghost k = lower_of(selector@);
        let mut i: usize = 0;
        while i < n
            invariant
                i <= n,
                n == self.menu@.len(),
                self@ == orig,
                k == lower_of(selector@),
                key@ == k,
                forall|j: int| 0 <= j < i ==> (#[trigger] orig[j]).0 != k,
            decreases n - i,
        {
            let hit = self.menu[i].0 == key;
            proof {
                assert(orig[i as int].0 == self.menu@[i as int].0@);
            }
            if hit {
                let entry = MenuEntry { displayed: displayed.to_owned(), enabled: enabled };
                self.menu.set(i, (key, entry));
                proof {
                    assert(self@ =~= orig.update(i as int, (k, displayed@, enabled)));
                    lemma_upsert_at(orig, k, displayed@, enabled, i as int);
                }
                return ;
            }
            i += 1;
        }
        let entry = MenuEntry { displayed: displayed.to_owned(), enabled: enabled };
        self.menu.push((key, entry));
        proof {
            assert(self@ =~= orig.push((k, displayed@, enabled)));
            lemma_upsert_missing(orig, k, displayed@, enabled);
        }
    }

    /// Validates a choice: valid when it exists and is enabled.
    #[verifier::loop_isolation(false)]
    pub fn valid_choice(&self, selection: &str) -> (r: bool)
        ensures
            r == (menu_lookup(self@, lower_of(selection@)) matches Some(e) && e.1),
    {
        let key = to_lower(selection);
        let n = self.menu.len();
        let ghost k = lower_of(selection@);
        let mut i: usize = 0;
        proof {
            assert(self@.skip(0) =~= self@);
        }
        while i < n
            invariant
                i <= n,
                n == self.menu@.len(),
                k == lower_of(selection@),
                key@ == k,
                menu_lookup(self@, k) == menu_lookup(self@.skip(i as int), k),
            decreases n - i,
        {
            let hit = self.menu[i].0 == key;
            proof {
                assert(self@.skip(i as int)[0] == self@[i as int]);
                assert(self@.skip(i as int).drop_first() =~= self@.skip(i + 1));
                assert(self@[i as int].0 == self.menu@[i as int].0@);
            }
            if hit {
                return self.menu[i].1.enabled;
            }
            i += 1;
        }
        proof {
            assert(self@.skip(n as int) =~= Seq::<(Seq<char>, Seq<char>, bool)>::empty());
        }
        false
    }

    /// Changes the enabledness of a choice; unknown selectors are an error.
    #[verifier::loop_isolation(false)]
    pub fn set_choice_avail(&mut self, selection: &str, enabled: bool) -> (r: Result<(), ()>)
        ensures
            final(self)@ == menu_set_avail(old(self)@, lower_of(selection@), enabled),
            r is Ok <==> menu_lookup(old(self)@, lower_of(selection@)) is Some,
    {
        let key = to_lower(selection);
        let n = self.menu.len();
        let ghost orig = self@;
        let ghost k = lower_of(selection@);
        let mut i: usize = 0;
        while i < n
            invariant
                i <= n,
                n == self.menu@.len(),
                self@ == orig,
                k == lower_of(selection@),
                key@ == k,
                forall|j: int| 0 <= j < i ==> (#[trigger] orig[j]).0 != k,
            decreases n - i,
        {
            let hit = self.menu[i].0 == key;
            proof {
                assert(orig[i as int].0 == self.menu@[i as int].0@);
            }
            if hit {
                let displayed = self.menu[i].1.displayed.clone();
                let entry = MenuEntry { displayed: displayed, enabled: enabled };
                let sel_string = self.menu[i].0.clone();
                self.menu.set(i, (sel_string, entry));
                proof {
                    assert(self@ =~= orig.update(
                        i as int,
                        (orig[i as int].0, orig[i as int].1, enabled),
                    ));
                    lemma_set_avail_at(orig, k, enabled, i as int);
                    lemma_lookup_at(orig, k, i as int);
                }
                return Ok(());
            }
            i += 1;
        }
        proof {
            lemma_set_avail_missing(orig, k);
            lemma_lookup_missing(orig, k);
            assert(self@ =~= menu_set_avail(orig, k, enabled));
        }
        Err(())
    }

    /// The display lines of the enabled entries, in menu order.
    #[verifier::loop_isolation(false)]
    pub fn enabled_lines(&self) -> (r: Vec<String>)
        ensures
            r@.map_values(|s: String| s@) == menu_lines(self@),
    {
        let n = self.menu.len();
        let mut lines: Vec<String> = Vec::new();
        proof {
            assert(lines@.map_values(|s: String| s@) =~= Seq::<Seq<char>>::empty());
            assert(self@.skip(0) =~= self@);
        }
        let mut i: usize = 0;
        while i < n
            invariant
                i <= n,
                n == self.menu@.len(),
                menu_lines(self@) == lines@.map_values(|s: String| s@) + menu_lines(
                    self@.skip(i as int),
                ),
            decreases n - i,
        {
            let ghost prev = lines@;
            proof {
                assert(self@.skip(i as int)[0] == self@[i as int]);
                assert(self@.skip(i as int).drop_first() =~= self@.skip(i + 1));
                let ghost me = self.menu@[i as int];
                assert(self@[i as int] == (me.0@, me.1.displayed@, me.1.enabled));
            }
            if self.menu[i].1.enabled {
                let mut line = self.menu[i].0.clone();
                line.append(" ");
                line.append(self.menu[i].1.displayed.as_str());
                proof {
                    reveal_strlit(" ");
                    assert(line@ =~= self@[i as int].0 + seq![' '] + self@[i as int].1);
                }
                lines.push(line);
            }
            i += 1;
            proof {
                let mapped = lines@.map_values(|s: String| s@);
                let prev_mapped = prev.map_values(|s: String| s@);
                assert(forall|j: int| 0 <= j < prev.len() ==> lines@[j] == prev[j]);
                assert(forall|j: int|
                    0 <= j < prev.len() ==> #[trigger] prev_mapped[j] == prev[j]@);
                assert(forall|j: int| 0 <= j < lines@.len() ==> #[trigger] mapped[j] == lines@[j]@);
                if self@[i - 1].2 {
                    assert(mapped =~= prev_mapped.push(self@[i - 1].0 + seq![' '] + self@[i
                        - 1].1));
                    assert(menu_lines(self@.skip(i - 1)) == seq![
                        self@[i - 1].0 + seq![' '] + self@[i - 1].1,
                    ] + menu_lines(self@.skip(i as int)));
                    assert(prev_mapped.push(self@[i - 1].0 + seq![' '] + self@[i - 1].1) + menu_lines(
                        self@.skip(i as int),
                    ) =~= prev_mapped + menu_lines(self@.skip(i - 1)));
                } else {
                    assert(menu_lines(self@.skip(i - 1)) == menu_lines(self@.skip(i as int)));
                    assert(mapped =~= prev_mapped);
                }
            }
        }
        proof {
            assert(self@.skip(n as int) =~= Seq::<(Seq<char>, Seq<char>, bool)>::empty());
            assert(lines@.map_values(|s: String| s@) =~= menu_lines(self@));
        }
        lines
    }
}

/// Upserting a key found first at `i` updates the entry in place.
proof fn lemma_upsert_at(s: Seq<(Seq<char>, Seq<char>, bool)>, k: Seq<char>, d: Seq<char>, e: bool, i: int)
    requires
        0 <= i < s.len(),
        s[i].0 == k,
        forall|j: int| 0 <= j < i ==> (#[trigger] s[j]).0 != k,
    ensures
        menu_upsert(s, k, d, e) == s.update(i, (k, d, e)),
    decreases i,
{
    if i == 0 {
        assert(menu_upsert(s, k, d, e) =~= s.update(0, (k, d, e)));
    } else {
        assert(s.drop_first()[i - 1].0 == k);
        assert(forall|j: int| 0 <= j < i - 1 ==> (#[trigger] s.drop_first()[j]).0 != k);
        lemma_upsert_at(s.drop_first(), k, d, e, i - 1);
        assert(menu_upsert(s, k, d, e) =~= s.update(i, (k, d, e)));
    }
}

/// Upserting an absent key appends the entry.
proof fn lemma_upsert_missing(s: Seq<(Seq<char>, Seq<char>, bool)>, k: Seq<char>, d: Seq<char>, e: bool)
    requires
        forall|j: int| 0 <= j < s.len() ==> (#[trigger] s[j]).0 != k,
    ensures
        menu_upsert(s, k, d, e) == s.push((k, d, e)),
    decreases s.len(),
{
    if s.len() == 0 {
        assert(menu_upsert(s, k, d, e) =~= s.push((k, d, e)));
    } else {
        assert(forall|j: int| 0 <= j < s.drop_first().len() ==> (#[trigger] s.drop_first()[j]).0 != k);
        lemma_upsert_missing(s.drop_first(), k, d, e);
        assert(menu_upsert(s, k, d, e) =~= s.push((k, d, e)));
    }
}

/// Setting the enabledness of a key found first at `i` updates in place.
proof fn lemma_set_avail_at(s: Seq<(Seq<char>, Seq<char>, bool)>, k: Seq<char>, e: bool, i: int)
    requires
        0 <= i < s.len(),
        s[i].0 == k,
        forall|j: int| 0 <= j < i ==> (#[trigger] s[j]).0 != k,
    ensures
        menu_set_avail(s, k, e) == s.update(i, (s[i].0, s[i].1, e)),
    decreases i,
{
    if i == 0 {
        assert(menu_set_avail(s, k, e) =~= s.update(0, (s[0].0, s[0].1, e)));
    } else {
        assert(s.drop_first()[i - 1].0 == k);
        assert(forall|j: int| 0 <= j < i - 1 ==> (#[trigger] s.drop_first()[j]).0 != k);
        lemma_set_avail_at(s.drop_first(), k, e, i - 1);
        assert(menu_set_avail(s, k, e) =~= s.update(i, (s[i].0, s[i].1, e)));
    }
}

/// Setting the enabledness of an absent key leaves the menu unchanged.
proof fn lemma_set_avail_missing(s: Seq<(Seq<char>, Seq<char>, bool)>, k: Seq<char>, )
    requires
        forall|j: int| 0 <= j < s.len() ==> (#[trigger] s[j]).0 != k,
    ensures
        forall|e: bool| menu_set_avail(s, k, e) == s,
    decreases s.len(),
{
    if s.len() == 0 {
    } else {
        assert(forall|j: int| 0 <= j < s.drop_first().len() ==> (#[trigger] s.drop_first()[j]).0 != k);
        lemma_set_avail_missing(s.drop_first(), k);
        assert forall|e: bool| menu_set_avail(s, k, e) == s by {
            assert(menu_set_avail(s.drop_first(), k, e) == s.drop_first());
            assert(seq![s[0]] + s.drop_first() =~= s);
        }
    }
}

/// A key found first at `i` looks up to that entry.
proof fn lemma_lookup_at(s: Seq<(Seq<char>, Seq<char>, bool)>, k: Seq<char>, i: int)
    requires
        0 <= i < s.len(),
        s[i].0 == k,
        forall|j: int| 0 <= j < i ==> (#[trigger] s[j]).0 != k,
    ensures
        menu_lookup(s, k) == Some((s[i].1, s[i].2)),
    decreases i,
{
    if i == 0 {
    } else {
        assert(s.drop_first()[i - 1].0 == k);
        assert(forall|j: int| 0 <= j < i - 1 ==> (#[trigger] s.drop_first()[j]).0 != k);
        lemma_lookup_at(s.drop_first(), k, i - 1);
    }
}

/// An absent key looks up to nothing.
proof fn lemma_lookup_missing(s: Seq<(Seq<char>, Seq<char>, bool)>, k: Seq<char>)
    requires
        forall|j: int| 0 <= j < s.len() ==> (#[trigger] s[j]).0 != k,
    ensures
        menu_lookup(s, k) is None,
    decreases s.len(),
{
    if s.len() == 0 {
    } else {
        assert(forall|j: int| 0 <= j < s.drop_first().len() ==> (#[trigger] s.drop_first()[j]).0 != k);
        lemma_lookup_missing(s.drop_first(), k);
    }
}

} // verus!
