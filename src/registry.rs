//! The registry: credentials sorted by name, and a selection cursor.

use vstd::prelude::*;
use crate::entry::{EntryError, TOTPEntry, count_sep, key_ok, line_name, line_of, line_secret};

verus! {

/// Whether `a` comes no later than `b` when both are compared from index
/// `i` on, character by character (code-point order, the order of the
/// UTF-8 bytes).
pub open spec fn le_from(a: Seq<char>, b: Seq<char>, i: int) -> bool
    decreases a.len() - i,
{
    if i < 0 || i >= a.len() {
        true
    } else if i >= b.len() {
        false
    } else if a[i] != b[i] {
        a[i] < b[i]
    } else {
        le_from(a, b, i + 1)
    }
}

/// Lexicographic order of names.
pub open spec fn name_le(a: Seq<char>, b: Seq<char>) -> bool {
    le_from(a, b, 0)
}

/// Each entry's name is no greater than the next one's.
pub open spec fn sorted_by_name(s: Seq<(Seq<char>, Seq<char>)>) -> bool {
    forall|i: int| 0 <= i < s.len() - 1 ==> name_le(#[trigger] s[i].0, s[i + 1].0)
}

proof fn lemma_le_total(a: Seq<char>, b: Seq<char>, i: int)
    requires
        0 <= i,
        !le_from(a, b, i),
    ensures
        le_from(b, a, i),
    decreases a.len() - i,
{
    if i < a.len() && i < b.len() && a[i] == b[i] {
        lemma_le_total(a, b, i + 1);
    }
}

/// Compares two names in lexicographic order.
pub fn name_le_exec(a: &str, b: &str) -> (r: bool)
    ensures
        r == name_le(a@, b@),
{
    let la = a.unicode_len();
    let lb = b.unicode_len();
    let mut i: usize = 0;
    while i < la && i < lb
        invariant
            la == a@.len(),
            lb == b@.len(),
            le_from(a@, b@, 0) == le_from(a@, b@, i as int),
        decreases la - i,
    {
        let ca = a.get_char(i);
        let cb = b.get_char(i);
        if ca != cb {
            return ca < cb;
        }
        i = i + 1;
    }
    i >= la
}

/// The pieces of a text between line feeds (one more than there are line
/// feeds).
pub open spec fn segments(s: Seq<char>) -> Seq<Seq<char>>
    decreases s.len(),
{
    if s.len() == 0 {
        seq![Seq::empty()]
    } else {
        let p = segments(s.drop_last());
        if s.last() == '\n' {
            p.push(Seq::empty())
        } else {
            p.update(p.len() - 1, p.last().push(s.last()))
        }
    }
}

/// A line without the carriage return that ends it, if any.
pub open spec fn strip_cr(l: Seq<char>) -> Seq<char> {
    if l.len() > 0 && l.last() == '\r' {
        l.drop_last()
    } else {
        l
    }
}

/// The lines of a text: each piece ended by a line feed loses a carriage
/// return before it; the piece after the last line feed is a line if it is
/// not empty.
pub open spec fn lines_of(s: Seq<char>) -> Seq<Seq<char>> {
    let p = segments(s);
    let done = p.drop_last().map_values(|l: Seq<char>| strip_cr(l));
    if p.last().len() == 0 {
        done
    } else {
        done.push(p.last())
    }
}

proof fn lemma_segments_len(s: Seq<char>)
    ensures
        segments(s).len() >= 1,
    decreases s.len(),
{
    if s.len() > 0 {
        lemma_segments_len(s.drop_last());
    }
}

/// Splits a text into its lines.
pub fn split_lines(s: &str) -> (r: Vec<String>)
    ensures
        r@.map_values(|x: String| x@) == lines_of(s@),
{
    let n = s.unicode_len();
    let mut out: Vec<String> = Vec::new();
    let mut start: usize = 0;
    let mut i: usize = 0;
    while i < n
        invariant
            n == s@.len(),
            start <= i <= n,
            segments(s@.subrange(0, i as int)).len() >= 1,
            out@.map_values(|x: String| x@) == segments(s@.subrange(0, i as int)).drop_last().map_values(
                |l: Seq<char>| strip_cr(l),
            ),
            segments(s@.subrange(0, i as int)).last() == s@.subrange(start as int, i as int),
        decreases n - i,
    {
        let c = s.get_char(i);
        let ghost pre = s@.subrange(0, i as int);
        let ghost p = segments(pre);
        let ghost next = s@.subrange(0, i + 1);
        assert(next.drop_last() =~= pre);
        assert(next.last() == c);
        let ghost old_out = out@.map_values(|x: String| x@);
        if c == '\n' {
            let mut end = i;
            if end > start && s.get_char(end - 1) == '\r' {
                end = end - 1;
            }
            let piece = String::from_str(s.substring_char(start, end));
            out.push(piece);
            proof {
                let cur = s@.subrange(start as int, i as int);
                assert(strip_cr(cur) =~= s@.subrange(start as int, end as int));
                assert(segments(next) == p.push(Seq::empty()));
                assert(segments(next).drop_last() =~= p);
                assert(p.map_values(|l: Seq<char>| strip_cr(l)) =~= p.drop_last().map_values(
                    |l: Seq<char>| strip_cr(l),
                ).push(strip_cr(cur)));
                assert(out@.map_values(|x: String| x@) =~= old_out.push(piece@));
                assert(s@.subrange(i + 1, i + 1) =~= Seq::<char>::empty());
            }
            start = i + 1;
        } else {
            proof {
                let q = p.update(p.len() - 1, p.last().push(c));
                assert(segments(next) == q);
                assert(q.drop_last() =~= p.drop_last());
                assert(s@.subrange(start as int, i + 1) =~= s@.subrange(start as int, i as int).push(
                    c,
                ));
            }
        }
        i = i + 1;
    }
    proof {
        assert(s@.subrange(0, n as int) =~= s@);
    }
    if start < n {
        let ghost old_out = out@.map_values(|x: String| x@);
        let piece = String::from_str(s.substring_char(start, n));
        out.push(piece);
        assert(out@.map_values(|x: String| x@) =~= old_out.push(piece@));
    }
    out
}

/// The name and the secret that a line holds.
pub open spec fn line_model(l: Seq<char>) -> (Seq<char>, Seq<char>) {
    (line_name(l), line_secret(l))
}

/// Why a line cannot become a credential, if it cannot.
pub open spec fn line_error(l: Seq<char>) -> Option<EntryError> {
    if count_sep(l) != 1 {
        Some(EntryError::Format)
    } else if !key_ok(line_secret(l)) {
        Some(EntryError::Oracle)
    } else {
        None
    }
}

/// The names and secrets of a sequence of credentials.
pub open spec fn entries_model(v: Seq<TOTPEntry>) -> Seq<(Seq<char>, Seq<char>)> {
    v.map_values(|e: TOTPEntry| e@)
}

/// A line of the text that could not become a credential.
#[derive(Debug, Clone, Copy, PartialEq, Eq, Structural)]
pub struct LoadError {
    /// The index of the line, from zero.
    pub line: usize,
    pub error: EntryError,
}

proof fn lemma_multiset_insert<A>(s: Seq<A>, j: int, x: A)
    requires
        0 <= j <= s.len(),
    ensures
        s.insert(j, x).to_multiset() =~= s.to_multiset().insert(x),
{
    broadcast use vstd::seq_lib::group_to_multiset_ensures;

    let t = s.insert(j, x);
    assert(t.remove(j) =~= s);
    assert(t[j] == x);
    assert(t.contains(x));
}

/// Inserts a credential into a sequence sorted by name, after those whose
/// name is no greater, and returns where it went.
fn insert_sorted(v: &mut Vec<TOTPEntry>, e: TOTPEntry) -> (j: usize)
    requires
        sorted_by_name(entries_model(old(v)@)),
    ensures
        j <= old(v)@.len(),
        final(v)@ == old(v)@.insert(j as int, e),
        sorted_by_name(entries_model(final(v)@)),
{
    let mut j: usize = v.len();
    let mut found = false;
    while j > 0 && !found
        invariant
            j <= v@.len(),
            found ==> j > 0 && name_le(v@[j - 1]@.0, e@.0),
            j < v@.len() ==> !name_le(v@[j as int]@.0, e@.0),
        decreases j, if found { 0int } else { 1int },
    {
        if name_le_exec(v[j - 1].name_str(), e.name_str()) {
            found = true;
        } else {
            j = j - 1;
        }
    }
    let ghost s = entries_model(v@);
    let ghost ev = e@;
    v.insert(j, e);
    proof {
        let t = entries_model(v@);
        assert(t =~= s.insert(j as int, ev));
        if j < s.len() {
            lemma_le_total(s[j as int].0, ev.0, 0);
        }
        assert forall|k: int| 0 <= k < t.len() - 1 implies name_le(#[trigger] t[k].0, t[k + 1].0) by {
            if k < j as int - 1 {
                assert(t[k] == s[k] && t[k + 1] == s[k + 1]);
            } else if k == j as int - 1 {
                assert(t[k] == s[k] && t[k + 1] == ev);
            } else if k == j as int {
                assert(t[k] == ev && t[k + 1] == s[k]);
            } else {
                assert(t[k] == s[k - 1] && t[k + 1] == s[k]);
            }
        }
    }
    j
}

/// The text that a sequence of names and secrets is stored as: one
/// `name=secret` line each, every line ended by a line feed.
pub open spec fn persist_of(s: Seq<(Seq<char>, Seq<char>)>) -> Seq<char>
    decreases s.len(),
{
    if s.len() == 0 {
        Seq::empty()
    } else {
        persist_of(s.drop_last()) + line_of(s.last().0, s.last().1) + seq!['\n']
    }
}

/// The selection after moving up in a registry of `n` credentials: with
/// nothing selected the first one is, and the first one stays.
pub open spec fn moved_up(n: nat, sel: Option<usize>) -> Option<usize> {
    match sel {
        Some(i) => if i > 0 { Some((i - 1) as usize) } else { Some(i) },
        None => if n > 0 { Some(0) } else { None },
    }
}

/// The selection after moving down in a registry of `n` credentials: with
/// nothing selected the first one is, and the last one stays.
pub open spec fn moved_down(n: nat, sel: Option<usize>) -> Option<usize> {
    match sel {
        Some(i) => if i + 1 < n { Some((i + 1) as usize) } else { Some(i) },
        None => if n > 0 { Some(0) } else { None },
    }
}

/// The selection after a sequence of moves, `true` for down.
pub open spec fn after_moves(n: nat, sel: Option<usize>, downs: Seq<bool>) -> Option<usize>
    decreases downs.len(),
{
    if downs.len() == 0 {
        sel
    } else {
        let prev = after_moves(n, sel, downs.drop_last());
        if downs.last() {
            moved_down(n, prev)
        } else {
            moved_up(n, prev)
        }
    }
}

/// Credentials in name order, and the index of the selected one, if any.
pub struct Registry {
    entries: Vec<TOTPEntry>,
    selected_index: Option<usize>,
}

impl View for Registry {
    type V = (Seq<(Seq<char>, Seq<char>)>, Option<usize>);

    /// The names and secrets in order, and the selection.
    closed spec fn view(&self) -> (Seq<(Seq<char>, Seq<char>)>, Option<usize>) {
        (entries_model(self.entries@), self.selected_index)
    }
}

impl Registry {
    /// Every credential is well formed and the selection, if any, is an
    /// index of the sequence.
    pub closed spec fn wf(&self) -> bool {
        &&& forall|i: int| 0 <= i < self.entries@.len() ==> (#[trigger] self.entries@[i]).wf()
        &&& self.selected_index matches Some(i) ==> i < self.entries@.len()
    }

    /// Reads a registry from the text of the data file: every line must
    /// become a credential; the credentials are sorted by name and nothing
    /// is selected. The first line that fails is reported.
    pub fn load(s: &str) -> (r: Result<Registry, LoadError>)
        ensures
            r is Ok <==> forall|i: int|
                0 <= i < lines_of(s@).len() ==> line_error(#[trigger] lines_of(s@)[i]) is None,
            r matches Err(e) ==> {
                &&& e.line < lines_of(s@).len()
                &&& line_error(lines_of(s@)[e.line as int]) == Some(e.error)
                &&& forall|j: int| 0 <= j < e.line ==> line_error(#[trigger] lines_of(s@)[j]) is None
            },
            r matches Ok(g) ==> {
                &&& g.wf()
                &&& g@.1 is None
                &&& sorted_by_name(g@.0)
                &&& g@.0.to_multiset() == lines_of(s@).map_values(|l: Seq<char>| line_model(l)).to_multiset()
            },
    {
        let lines = split_lines(s);
        let ghost ls = lines_of(s@);
        let mut entries: Vec<TOTPEntry> = Vec::new();
        let mut i: usize = 0;
        assert(lines@.len() == ls.len());
        assert(entries_model(entries@) =~= ls.subrange(0, 0).map_values(|l: Seq<char>| line_model(l)));
        while i < lines.len()
            invariant
                ls == lines_of(s@),
                lines@.map_values(|x: String| x@) == ls,
                i <= lines@.len(),
                forall|k: int| 0 <= k < entries@.len() ==> (#[trigger] entries@[k]).wf(),
                sorted_by_name(entries_model(entries@)),
                forall|k: int| 0 <= k < i ==> line_error(#[trigger] ls[k]) is None,
                entries_model(entries@).to_multiset() == ls.subrange(0, i as int).map_values(
                    |l: Seq<char>| line_model(l),
                ).to_multiset(),
            decreases lines@.len() - i,
        {
            assert(lines@[i as int]@ == ls[i as int]);
            match TOTPEntry::parse(lines[i].as_str()) {
                Ok(e) => {
                    let ghost old_entries = entries@;
                    let ghost ev = e@;
                    let j = insert_sorted(&mut entries, e);
                    proof {
                        broadcast use vstd::seq_lib::group_to_multiset_ensures;

                        assert(entries_model(entries@) =~= entries_model(old_entries).insert(j as int, ev));
                        lemma_multiset_insert(entries_model(old_entries), j as int, ev);
                        let f = |l: Seq<char>| line_model(l);
                        assert(ls.subrange(0, i + 1).map_values(f) =~= ls.subrange(0, i as int).map_values(f).push(
                            line_model(ls[i as int]),
                        ));
                        assert forall|k: int| 0 <= k < entries@.len() implies (#[trigger] entries@[k]).wf() by {
                            if k < j {
                                assert(entries@[k] == old_entries[k]);
                            } else if k > j {
                                assert(entries@[k] == old_entries[k - 1]);
                            }
                        }
                    }
                },
                Err(err) => {
                    assert(line_error(ls[i as int]) == Some(err));
                    return Err(LoadError { line: i, error: err });
                },
            }
            i = i + 1;
        }
        assert(ls.subrange(0, i as int) =~= ls);
        Ok(Registry { entries, selected_index: None })
    }

    /// The number of credentials.
    pub fn len(&self) -> (r: usize)
        ensures
            r == self@.0.len(),
    {
        self.entries.len()
    }

    /// Whether the registry holds no credential.
    pub fn is_empty(&self) -> (r: bool)
        ensures
            r == (self@.0.len() == 0),
    {
        self.entries.len() == 0
    }

    /// The index of the selected credential, if any.
    pub fn selected_index(&self) -> (r: Option<usize>)
        ensures
            r == self@.1,
    {
        self.selected_index
    }

    /// The credential at index `i`.
    pub fn get(&self, i: usize) -> (r: &TOTPEntry)
        requires
            self.wf(),
            i < self@.0.len(),
        ensures
            r@ == self@.0[i as int],
            r.wf(),
    {
        &self.entries[i]
    }

    /// The selected credential, if any.
    pub fn selected_entry(&self) -> (r: Option<&TOTPEntry>)
        requires
            self.wf(),
        ensures
            r is Some <==> self@.1 is Some,
            r matches Some(e) ==> e@ == self@.0[self@.1->0 as int] && e.wf(),
    {
        match self.selected_index {
            Some(i) => Some(&self.entries[i]),
            None => None,
        }
    }

    /// Moves the selection one place up; with nothing selected, selects the
    /// first credential. Never moves past the first one.
    pub fn move_up(&mut self)
        requires
            old(self).wf(),
        ensures
            final(self).wf(),
            final(self)@.0 == old(self)@.0,
            final(self)@.1 == moved_up(old(self)@.0.len(), old(self)@.1),
    {
        match self.selected_index {
            Some(i) => {
                if i > 0 {
                    self.selected_index = Some(i - 1);
                }
            },
            None => {
                if self.entries.len() > 0 {
                    self.selected_index = Some(0);
                }
            },
        }
    }

    /// Moves the selection one place down; with nothing selected, selects
    /// the first credential. Never moves past the last one.
    pub fn move_down(&mut self)
        requires
            old(self).wf(),
        ensures
            final(self).wf(),
            final(self)@.0 == old(self)@.0,
            final(self)@.1 == moved_down(old(self)@.0.len(), old(self)@.1),
    {
        match self.selected_index {
            Some(i) => {
                assert(i < self.entries@.len());
                if i < self.entries.len() - 1 {
                    self.selected_index = Some(i + 1);
                }
            },
            None => {
                if self.entries.len() > 0 {
                    self.selected_index = Some(0);
                }
            },
        }
    }

    /// Moves the selection down where `down` holds, up otherwise.
    pub fn move_selection(&mut self, down: bool)
        requires
            old(self).wf(),
        ensures
            final(self).wf(),
            final(self)@.0 == old(self)@.0,
            final(self)@.1 == after_moves(old(self)@.0.len(), old(self)@.1, seq![down]),
    {
        assert(seq![down].drop_last() =~= Seq::<bool>::empty());
        assert(after_moves(self@.0.len(), self@.1, Seq::<bool>::empty()) == self@.1);
        if down {
            self.move_down();
        } else {
            self.move_up();
        }
    }

    /// Removes the selected credential and clears the selection; with
    /// nothing selected, does nothing.
    pub fn delete_selected(&mut self)
        requires
            old(self).wf(),
        ensures
            final(self).wf(),
            final(self)@.1 is None,
            old(self)@.1 matches Some(i) ==> final(self)@.0 == old(self)@.0.remove(i as int),
            old(self)@.1 is None ==> final(self)@.0 == old(self)@.0,
    {
        if let Some(i) = self.selected_index {
            let ghost old_entries = self.entries@;
            self.entries.remove(i);
            self.selected_index = None;
            proof {
                assert(entries_model(self.entries@) =~= entries_model(old_entries).remove(i as int));
                assert forall|k: int| 0 <= k < self.entries@.len() implies (#[trigger] self.entries@[k]).wf() by {
                    if k < i {
                        assert(self.entries@[k] == old_entries[k]);
                    } else {
                        assert(self.entries@[k] == old_entries[k + 1]);
                    }
                }
            }
        }
    }

    /// The text of the data file for the registry: one `name=secret` line
    /// per credential, in order, each ended by a line feed.
    pub fn persist(&self) -> (r: String)
        ensures
            r@ == persist_of(self@.0),
    {
        let mut out = String::new();
        let mut i: usize = 0;
        while i < self.entries.len()
            invariant
                i <= self.entries@.len(),
                out@ == persist_of(entries_model(self.entries@).subrange(0, i as int)),
            decreases self.entries@.len() - i,
        {
            let line = self.entries[i].dump();
            let ghost sub = entries_model(self.entries@).subrange(0, i + 1);
            assert(sub.drop_last() =~= entries_model(self.entries@).subrange(0, i as int));
            assert(sub.last() == self.entries@[i as int]@);
            out.append(line.as_str());
            proof {
                reveal_strlit("\n");
            }
            out.append("\n");
            assert(out@ =~= persist_of(sub));
            i = i + 1;
        }
        assert(entries_model(self.entries@).subrange(0, i as int) =~= entries_model(self.entries@));
        out
    }
}

/// In a registry of `n` credentials, any sequence of moves from a valid
/// selection (or none) leaves a valid selection (or none), and at least one
/// move in a non-empty registry selects something.
pub proof fn lemma_selection_in_range(n: nat, sel: Option<usize>, downs: Seq<bool>)
    requires
        sel matches Some(i) ==> i < n,
    ensures
        after_moves(n, sel, downs) matches Some(i) ==> i < n,
        n > 0 && downs.len() > 0 ==> after_moves(n, sel, downs) is Some,
    decreases downs.len(),
{
    if downs.len() > 0 {
        lemma_selection_in_range(n, sel, downs.drop_last());
    }
}

/// An empty registry has nothing selected, moving the selection either way
/// keeps it so, and its stored text is empty.
pub proof fn lemma_empty_registry(g: &Registry)
    requires
        g.wf(),
        g@.0.len() == 0,
    ensures
        g@.1 is None,
        moved_up(0, g@.1) is None,
        moved_down(0, g@.1) is None,
        persist_of(g@.0) == Seq::<char>::empty(),
{
}

} // verus!
