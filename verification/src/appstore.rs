//! The software center: the extension packs on offer and the set of
//! installed packs, kept one id per line in a state file.
use vstd::prelude::*;

use crate::text::{
    lemma_lines_split, lemma_one_line, lemma_trim_keeps_last, chars_eq, chars_of, extend_chars, is_white, lines_acc, lines_of, lines_seq, string_of, trim, trim_seq,
};

verus! {

/// An extension pack on offer.
#[derive(Debug)]
pub struct ExtensionPack {
    pub id: String,
    pub name: String,
    pub description: String,
    pub icon: String,
}

fn pack(id: &str, name: &str, description: &str, icon: &str) -> (r: ExtensionPack)
    ensures
        r.id@ == id@,
        r.name@ == name@,
        r.description@ == description@,
        r.icon@ == icon@,
{
    ExtensionPack {
        id: string_of(&chars_of(id)),
        name: string_of(&chars_of(name)),
        description: string_of(&chars_of(description)),
        icon: string_of(&chars_of(icon)),
    }
}

/// The ids of the packs on offer, in the order they are listed.
pub open spec fn pack_ids() -> Seq<Seq<char>> {
    seq!["developer"@, "security"@, "research"@, "ai"@, "media"@, "productivity"@]
}

/// The packs on offer, each as its id, name, description and icon, in the
/// order they are listed.
pub open spec fn packs_on_offer() -> Seq<(Seq<char>, Seq<char>, Seq<char>, Seq<char>)> {
    seq![
        ("developer"@, "Developer Toolkit"@, "Docker GUI, Git GUI, VS Code, Neovim"@, "utilities-terminal-symbolic"@),
        ("security"@, "Security Toolkit"@, "Wireshark, nmap, Burp Community, KeePassXC"@, "security-high-symbolic"@),
        ("research"@, "Research Toolkit"@, "Zotero, Obsidian, Xournal++, PDF annotator"@, "accessories-dictionary-symbolic"@),
        ("ai"@, "AI Toolkit"@, "Ollama, LM Studio, local model manager"@, "weather-clear-symbolic"@),
        ("media"@, "Media Toolkit"@, "OBS, Kdenlive, Audacity, screen recorder"@, "audio-x-generic-symbolic"@),
        ("productivity"@, "Productivity Toolkit"@, "LibreOffice, Thunderbird, TaskWarrior"@, "x-office-document-symbolic"@),
    ]
}

/// The packs on offer.
pub fn extension_packs() -> (r: Vec<ExtensionPack>)
    ensures
        r@.map_values(|p: ExtensionPack| (p.id@, p.name@, p.description@, p.icon@)) == packs_on_offer(),
        r@.map_values(|p: ExtensionPack| p.id@) == pack_ids(),
{
    let mut v: Vec<ExtensionPack> = Vec::new();
    v.push(pack("developer", "Developer Toolkit", "Docker GUI, Git GUI, VS Code, Neovim", "utilities-terminal-symbolic"));
    v.push(pack("security", "Security Toolkit", "Wireshark, nmap, Burp Community, KeePassXC", "security-high-symbolic"));
    v.push(pack("research", "Research Toolkit", "Zotero, Obsidian, Xournal++, PDF annotator", "accessories-dictionary-symbolic"));
    v.push(pack("ai", "AI Toolkit", "Ollama, LM Studio, local model manager", "weather-clear-symbolic"));
    v.push(pack("media", "Media Toolkit", "OBS, Kdenlive, Audacity, screen recorder", "audio-x-generic-symbolic"));
    v.push(pack("productivity", "Productivity Toolkit", "LibreOffice, Thunderbird, TaskWarrior", "x-office-document-symbolic"));
    assert(v@.map_values(|p: ExtensionPack| (p.id@, p.name@, p.description@, p.icon@)) =~= packs_on_offer());
    assert(v@.map_values(|p: ExtensionPack| p.id@) =~= pack_ids());
    v
}

/// The label and style class of a pack's button.
pub fn pack_button(installed: bool) -> (r: (String, String))
    ensures
        installed ==> r.0@ == "Uninstall"@ && r.1@ == "destructive-action"@,
        !installed ==> r.0@ == "Install"@ && r.1@ == "suggested-action"@,
{
    if installed {
        (string_of(&chars_of("Uninstall")), string_of(&chars_of("destructive-action")))
    } else {
        (string_of(&chars_of("Install")), string_of(&chars_of("suggested-action")))
    }
}

/// The texts of a list of strings.
pub open spec fn texts(v: Seq<String>) -> Seq<Seq<char>> {
    v.map_values(|s: String| s@)
}

/// No text occurs twice.
pub open spec fn no_repeats(v: Seq<Seq<char>>) -> bool {
    forall|i: int, j: int| #![trigger v[i], v[j]] 0 <= i < j < v.len() ==> v[i] != v[j]
}

/// The installed pack ids recorded by a state file's text: every line,
/// trimmed, that is not blank.
pub open spec fn recorded_ids(content: Seq<char>) -> Set<Seq<char>> {
    Set::new(|id: Seq<char>| exists|k: int| #![trigger lines_seq(content)[k]]
        0 <= k < lines_seq(content).len() && trim_seq(lines_seq(content)[k]) == id && id.len() > 0)
}

/// The ids written one per line, each followed by a newline.
pub open spec fn lines_text(ids: Seq<Seq<char>>) -> Seq<char>
    decreases ids.len(),
{
    if ids.len() == 0 {
        seq![]
    } else {
        lines_text(ids.drop_last()) + ids.last() + seq!['\n']
    }
}

/// The installed packs.
pub struct InstalledPacks {
    ids: Vec<String>,
}

impl InstalledPacks {
    #[verifier::type_invariant]
    closed spec fn wf(&self) -> bool {
        no_repeats(texts(self.ids@))
    }

    /// The installed pack ids.
    pub closed spec fn set(&self) -> Set<Seq<char>> {
        texts(self.ids@).to_set()
    }

    /// The ids in the order the state file lists them.
    pub closed spec fn order(&self) -> Seq<Seq<char>> {
        texts(self.ids@)
    }

    /// No pack is installed.
    pub fn new() -> (r: Self)
        ensures
            r.set() == Set::<Seq<char>>::empty(),
            r.order().len() == 0,
    {
        let r = InstalledPacks { ids: Vec::new() };
        assert(r.set() =~= Set::<Seq<char>>::empty());
        r
    }

    /// Where `id` stands among the installed ids, if it is installed.
    fn position(&self, id: &Vec<char>) -> (r: Option<usize>)
        ensures
            match r {
                Some(i) => i < self.order().len() && self.order()[i as int] == id@,
                None => !self.set().contains(id@),
            },
    {
        let mut i: usize = 0;
        while i < self.ids.len()
            invariant
                i <= self.ids.len(),
                forall|k: int| 0 <= k < i ==> #[trigger] texts(self.ids@)[k] != id@,
            decreases self.ids.len() - i,
        {
            let c = chars_of(self.ids[i].as_str());
            if chars_eq(&c, id) {
                return Some(i);
            }
            i = i + 1;
        }
        proof {
            if self.set().contains(id@) {
                let k = choose|k: int| 0 <= k < texts(self.ids@).len() && texts(self.ids@)[k] == id@;
            }
        }
        None
    }

    /// Whether the pack `id` is installed.
    pub fn contains(&self, id: &str) -> (r: bool)
        ensures
            r == self.set().contains(id@),
    {
        let c = chars_of(id);
        match self.position(&c) {
            Some(i) => {
                assert(self.set().contains(self.order()[i as int]));
                true
            },
            None => false,
        }
    }

    /// Records that the pack `id` is installed.
    pub fn insert(&mut self, id: &str)
        ensures
            final(self).set() == old(self).set().insert(id@),
            !old(self).set().contains(id@) ==> final(self).order() == old(self).order().push(id@),
            old(self).set().contains(id@) ==> final(self).order() == old(self).order(),
    {
        proof {
            use_type_invariant(&*self);
        }
        let c = chars_of(id);
        if self.position(&c).is_none() {
            let mut ids: Vec<String> = Vec::new();
            std::mem::swap(&mut ids, &mut self.ids);
            let ghost before = texts(ids@);
            ids.push(string_of(&c));
            proof {
                let now = texts(ids@);
                assert(now =~= before.push(id@));
                assert forall|i: int, j: int| #![trigger now[i], now[j]] 0 <= i < j < now.len() implies now[i] != now[j] by {
                    if j == before.len() {
                        assert(now[i] == before[i]);
                        assert(before.to_set().contains(before[i]));
                    } else {
                        assert(now[i] == before[i]);
                        assert(now[j] == before[j]);
                    }
                }
                assert forall|x: Seq<char>| now.to_set().contains(x) == before.to_set().insert(id@).contains(x) by {
                    if now.contains(x) {
                        let k = choose|k: int| 0 <= k < now.len() && now[k] == x;
                        if k < before.len() {
                            assert(before[k] == x);
                        }
                    }
                    if before.contains(x) {
                        let k = choose|k: int| 0 <= k < before.len() && before[k] == x;
                        assert(now[k] == x);
                    }
                    if x == id@ {
                        assert(now[before.len() as int] == x);
                    }
                }
                assert(now.to_set() =~= before.to_set().insert(id@));
            }
            self.ids = ids;
        } else {
            assert(self.set().insert(id@) =~= self.set());
        }
    }

    /// Records that the pack `id` is not installed.
    pub fn remove(&mut self, id: &str)
        ensures
            final(self).set() == old(self).set().remove(id@),
    {
        proof {
            use_type_invariant(&*self);
        }
        let c = chars_of(id);
        match self.position(&c) {
            Some(p) => {
                let mut ids: Vec<String> = Vec::new();
                std::mem::swap(&mut ids, &mut self.ids);
                let ghost before = texts(ids@);
                ids.remove(p);
                proof {
                    let now = texts(ids@);
                    assert(now =~= before.remove(p as int));
                    assert forall|i: int, j: int| #![trigger now[i], now[j]] 0 <= i < j < now.len() implies now[i]
                        != now[j] by {
                        let oi = if i < p { i } else { i + 1 };
                        let oj = if j < p { j } else { j + 1 };
                        assert(now[i] == before[oi]);
                        assert(now[j] == before[oj]);
                    }
                    assert forall|x: Seq<char>| now.to_set().contains(x) == before.to_set().remove(id@).contains(x) by {
                        if now.contains(x) {
                            let k = choose|k: int| 0 <= k < now.len() && now[k] == x;
                            let ok = if k < p { k } else { k + 1 };
                            assert(before[ok] == x);
                            assert(ok != p);
                        }
                        if before.contains(x) && x != id@ {
                            let k = choose|k: int| 0 <= k < before.len() && before[k] == x;
                            assert(k != p);
                            if k < p {
                                assert(now[k] == x);
                            } else {
                                assert(now[k - 1] == x);
                            }
                        }
                    }
                    assert(now.to_set() =~= before.to_set().remove(id@));
                }
                self.ids = ids;
            },
            None => {
                assert(self.set().remove(id@) =~= self.set());
            },
        }
    }

    /// Installs the pack `id` when it is not installed, uninstalls it when it
    /// is.
    pub fn toggle(&mut self, id: &str)
        ensures
            final(self).set() == toggled(old(self).set(), id@),
    {
        if self.contains(id) {
            self.remove(id);
        } else {
            self.insert(id);
        }
    }

    /// The installed packs recorded by a state file's text.
    pub fn parse(content: &str) -> (r: Self)
        ensures
            r.set() == recorded_ids(content@),
    {
        let c = chars_of(content);
        let lines = lines_of(&c);
        let ghost lv = lines@.map_values(|l: Vec<char>| l@);
        let mut r = InstalledPacks::new();
        let mut i: usize = 0;
        while i < lines.len()
            invariant
                i <= lines.len(),
                lv == lines@.map_values(|l: Vec<char>| l@),
                lv == lines_seq(content@),
                r.set() == Set::new(|id: Seq<char>| exists|k: int| #![trigger lv[k]]
                    0 <= k < i && trim_seq(lv[k]) == id && id.len() > 0),
            decreases lines.len() - i,
        {
            let t = trim(&lines[i]);
            let ghost before = r.set();
            if t.len() > 0 {
                let s = string_of(&t);
                r.insert(s.as_str());
            }
            assert(r.set() =~= Set::new(|id: Seq<char>| exists|k: int| #![trigger lv[k]]
                0 <= k < i + 1 && trim_seq(lv[k]) == id && id.len() > 0)) by {
                assert(lv[i as int] == lines@[i as int]@);
                assert forall|x: Seq<char>| r.set().contains(x) implies exists|k: int| #![trigger lv[k]]
                    0 <= k < i + 1 && trim_seq(lv[k]) == x && x.len() > 0 by {
                    if before.contains(x) {
                        let k = choose|k: int| #![trigger lv[k]] 0 <= k < i && trim_seq(lv[k]) == x && x.len() > 0;
                    } else {
                        assert(trim_seq(lv[i as int]) == x);
                    }
                }
            }
            i = i + 1;
        }
        assert(r.set() =~= recorded_ids(content@));
        r
    }

    /// The state file's text for the installed packs: one id per line, in
    /// the order they were installed.
    pub fn file_content(&self) -> (s: String)
        ensures
            s@ == lines_text(self.order()),
            self.order().to_set() == self.set(),
            no_repeats(self.order()),
    {
        proof {
            use_type_invariant(self);
        }
        let mut v: Vec<char> = Vec::new();
        let mut i: usize = 0;
        while i < self.ids.len()
            invariant
                i <= self.ids.len(),
                v@ == lines_text(texts(self.ids@).take(i as int)),
            decreases self.ids.len() - i,
        {
            let ghost t = texts(self.ids@).take(i + 1);
            assert(t.drop_last() =~= texts(self.ids@).take(i as int));
            assert(t.last() == self.ids@[i as int]@);
            extend_chars(&mut v, &chars_of(self.ids[i].as_str()));
            v.push('\n');
            assert(lines_text(t) =~= v@);
            i = i + 1;
        }
        assert(texts(self.ids@).take(self.ids.len() as int) =~= texts(self.ids@));
        string_of(&v)
    }
}


/// The installed set after pressing the button of pack `id`.
pub open spec fn toggled(s: Set<Seq<char>>, id: Seq<char>) -> Set<Seq<char>> {
    if s.contains(id) {
        s.remove(id)
    } else {
        s.insert(id)
    }
}

/// Pressing a pack's button twice leaves the installed set as it was.
pub proof fn law_toggle_twice(s: Set<Seq<char>>, id: Seq<char>)
    ensures
        toggled(toggled(s, id), id) == s,
{
    if s.contains(id) {
        assert(s.remove(id).insert(id) =~= s);
    } else {
        assert(s.insert(id).remove(id) =~= s);
    }
}

/// The lines of the state-file text are the ids written.
proof fn lemma_lines_of_text(ids: Seq<Seq<char>>)
    requires
        forall|k: int, i: int| 0 <= k < ids.len() && 0 <= i < ids[k].len() ==> #[trigger] ids[k][i] != '\n',
        forall|k: int| 0 <= k < ids.len() ==> trim_seq(#[trigger] ids[k]) == ids[k] && ids[k].len() > 0,
    ensures
        lines_seq(lines_text(ids)) == ids,
    decreases ids.len(),
{
    if ids.len() == 0 {
        assert(lines_text(ids) =~= Seq::<char>::empty());
        assert(lines_seq(lines_text(ids)) =~= ids);
    } else {
        let front = ids.drop_last();
        let x = ids.last();
        assert forall|k: int, i: int| 0 <= k < front.len() && 0 <= i < front[k].len() implies #[trigger] front[k][i]
            != '\n' by {
            assert(front[k] == ids[k]);
        }
        assert forall|k: int| 0 <= k < front.len() implies trim_seq(#[trigger] front[k]) == front[k] && front[k].len()
            > 0 by {
            assert(front[k] == ids[k]);
        }
        lemma_lines_of_text(front);
        assert forall|i: int| 0 <= i < x.len() implies x[i] != '\n' by {
            assert(ids[ids.len() - 1] == x);
            assert(ids[ids.len() - 1][i] != '\n');
        }
        lemma_one_line(x, seq![]);
        assert(Seq::<char>::empty() + x =~= x);
        assert(trim_seq(ids[ids.len() - 1]) == x);
        lemma_trim_keeps_last(x);
        let tail = x + seq!['\n'];
        assert(lines_text(ids) =~= lines_text(front) + tail);
        if front.len() == 0 {
            assert(lines_text(front) =~= Seq::<char>::empty());
            assert(lines_text(ids) =~= tail);
        } else {
            lemma_text_ends_newline(front);
            lemma_lines_split(lines_text(front), tail, seq![]);
        }
        assert(lines_seq(lines_text(ids)) =~= ids);
    }
}

proof fn lemma_text_ends_newline(ids: Seq<Seq<char>>)
    requires
        ids.len() > 0,
    ensures
        lines_text(ids).len() > 0,
        lines_text(ids).last() == '\n',
{
}

/// Writing the installed set and reading it back gives the same set, for
/// ids that are not blank, have no surrounding white space and no line
/// breaks.
pub proof fn law_state_file_round_trip(ids: Seq<Seq<char>>)
    requires
        forall|k: int, i: int| 0 <= k < ids.len() && 0 <= i < ids[k].len() ==> #[trigger] ids[k][i] != '\n',
        forall|k: int| 0 <= k < ids.len() ==> trim_seq(#[trigger] ids[k]) == ids[k] && ids[k].len() > 0,
    ensures
        recorded_ids(lines_text(ids)) == ids.to_set(),
{
    lemma_lines_of_text(ids);
    let c = lines_text(ids);
    assert forall|x: Seq<char>| recorded_ids(c).contains(x) == ids.to_set().contains(x) by {
        if recorded_ids(c).contains(x) {
            let k = choose|k: int| #![trigger lines_seq(c)[k]] 0 <= k < lines_seq(c).len() && trim_seq(lines_seq(c)[k])
                == x && x.len() > 0;
            assert(lines_seq(c)[k] == ids[k]);
        }
        if ids.contains(x) {
            let k = choose|k: int| 0 <= k < ids.len() && ids[k] == x;
            assert(lines_seq(c)[k] == ids[k]);
            assert(trim_seq(ids[k]) == ids[k]);
        }
    }
    assert(recorded_ids(c) =~= ids.to_set());
}

} // verus!
