//! The installed-applications source: selecting desktop descriptor
//! paths, parsing one descriptor into a launchable list item, and
//! assembling the deduplicated, alphabetically sorted application
//! group. Scanning directories and reading files stays outside; every
//! rule applied to their contents is verified here.

use vstd::prelude::*;

use crate::model::{ActivationCommand, CommandView};
use crate::text::{
    chars_of, contains_seq, find_first, first_match_at, lemma_first_match_unique, lower_chars,
    lower_seq, string_from_chars,
};

verus! {

/// One desktop descriptor handed in by the caller: where it was found
/// and what it holds.
pub struct DesktopFile {
    pub path: String,
    pub contents: String,
}

/// Mathematical abstraction of a [`DesktopFile`].
pub ghost struct DesktopFileView {
    pub path: Seq<char>,
    pub contents: Seq<char>,
}

impl View for DesktopFile {
    type V = DesktopFileView;

    open spec fn view(&self) -> DesktopFileView {
        DesktopFileView { path: self.path@, contents: self.contents@ }
    }
}

impl DeepView for DesktopFile {
    type V = DesktopFileView;

    open spec fn deep_view(&self) -> DesktopFileView {
        self.view()
    }
}

/// One action a list item offers: the keys that trigger it, its label,
/// and the command it runs.
pub struct ListItemAction {
    pub keys: Vec<String>,
    pub text: String,
    pub command: ActivationCommand,
}

/// Mathematical abstraction of a [`ListItemAction`].
pub ghost struct ListItemActionView {
    pub keys: Seq<Seq<char>>,
    pub text: Seq<char>,
    pub command: CommandView,
}

impl View for ListItemAction {
    type V = ListItemActionView;

    open spec fn view(&self) -> ListItemActionView {
        ListItemActionView {
            keys: self.keys.deep_view(),
            text: self.text@,
            command: self.command@,
        }
    }
}

impl DeepView for ListItemAction {
    type V = ListItemActionView;

    open spec fn deep_view(&self) -> ListItemActionView {
        self.view()
    }
}

/// One launchable application in the applications group.
pub struct ListItem {
    pub title: String,
    pub actions: Vec<ListItemAction>,
}

/// Mathematical abstraction of a [`ListItem`].
pub ghost struct ListItemView {
    pub title: Seq<char>,
    pub actions: Seq<ListItemActionView>,
}

impl View for ListItem {
    type V = ListItemView;

    open spec fn view(&self) -> ListItemView {
        ListItemView { title: self.title@, actions: self.actions.deep_view() }
    }
}

impl DeepView for ListItem {
    type V = ListItemView;

    open spec fn deep_view(&self) -> ListItemView {
        self.view()
    }
}

/// A named, icon-tagged group of list items.
pub struct ItemGroup {
    pub name: String,
    pub icon: String,
    pub items: Vec<ListItem>,
}

/// The `.desktop` suffix, as characters.
pub open spec fn desktop_suffix() -> Seq<char> {
    seq!['.', 'd', 'e', 's', 'k', 't', 'o', 'p']
}

/// A path that names a desktop descriptor: it ends in `.desktop`.
pub open spec fn is_desktop_path(p: Seq<char>) -> bool {
    p.len() >= 8 && p.skip(p.len() - 8) == desktop_suffix()
}

/// Whether `v` ends in `.desktop`.
fn ends_with_desktop(v: &Vec<char>) -> (r: bool)
    ensures
        r == is_desktop_path(v@),
{
    let n = v.len();
    if n < 8 {
        return false;
    }
    let suffix: [char; 8] = ['.', 'd', 'e', 's', 'k', 't', 'o', 'p'];
    let mut j: usize = 0;
    while j < 8
        invariant
            n == v@.len(),
            n >= 8,
            j <= 8,
            forall|k: int| 0 <= k < j ==> v@[n - 8 + k] == desktop_suffix()[k],
            suffix@ == desktop_suffix(),
        decreases 8 - j,
    {
        if v[n - 8 + j] != suffix[j] {
            proof {
                assert(v@.skip(n - 8)[j as int] == v@[n - 8 + j]);
                assert(v@.skip(n - 8) != desktop_suffix());
            }
            return false;
        }
        j = j + 1;
    }
    proof {
        assert(v@.skip(n - 8) =~= desktop_suffix());
    }
    true
}

/// The selection rule over a directory walk's results: keep exactly the
/// paths that name desktop descriptors, in walk order.
pub fn select_desktop_paths(paths: &Vec<String>) -> (r: Vec<String>)
    ensures
        r.deep_view() == paths.deep_view().filter(|p: Seq<char>| is_desktop_path(p)),
    {
    let n = paths.len();
    let mut r: Vec<String> = Vec::new();
    let mut i: usize = 0;
    proof {
        reveal(Seq::filter);
        assert(r.deep_view() =~= paths.deep_view().take(0).filter(
            |p: Seq<char>| is_desktop_path(p),
        ));
    }
    while i < n
        invariant
            i <= n,
            n == paths@.len(),
            r.deep_view() == paths.deep_view().take(i as int).filter(
                |p: Seq<char>| is_desktop_path(p),
            ),
        decreases n - i,
    {
        let ghost pred = |p: Seq<char>| is_desktop_path(p);
        let ghost prefix = paths.deep_view().take(i as int);
        let v = chars_of(paths[i].as_str());
        let keep = ends_with_desktop(&v);
        proof {
            reveal(Seq::filter);
            assert(paths.deep_view().take(i + 1) =~= prefix.push(paths.deep_view()[i as int]));
            assert(prefix.push(paths.deep_view()[i as int]).drop_last() =~= prefix);
        }
        if keep {
            r.push(paths[i].clone());
            proof {
                assert(r.deep_view() =~= prefix.filter(pred).push(paths.deep_view()[i as int]));
                assert(paths.deep_view().take(i + 1).filter(pred) == prefix.filter(pred).push(
                    paths.deep_view()[i as int],
                ));
            }
        } else {
            proof {
                assert(paths.deep_view().take(i + 1).filter(pred) == prefix.filter(pred));
            }
        }
        i = i + 1;
    }
    proof {
        assert(paths.deep_view().take(n as int) =~= paths.deep_view());
    }
    r
}

/// The value of the first `<key>`-marked line: what stands between the
/// key's first occurrence and the next line break (or the text's end).
pub open spec fn value_after(contents: Seq<char>, key: Seq<char>) -> Seq<char> {
    let i = choose|i: int| first_match_at(contents, key, i);
    let rest = contents.skip(i + key.len());
    if contains_seq(rest, seq!['\n']) {
        let j = choose|j: int| first_match_at(rest, seq!['\n'], j);
        rest.take(j)
    } else {
        rest
    }
}

/// Copies `v[a..b]`.
fn slice_range(v: &Vec<char>, a: usize, b: usize) -> (r: Vec<char>)
    requires
        a <= b <= v@.len(),
    ensures
        r@ == v@.subrange(a as int, b as int),
{
    let mut r: Vec<char> = Vec::new();
    let mut k: usize = a;
    while k < b
        invariant
            a <= k <= b <= v@.len(),
            r@ == v@.subrange(a as int, k as int),
        decreases b - k,
    {
        r.push(v[k]);
        proof {
            assert(r@ =~= v@.subrange(a as int, k + 1));
        }
        k = k + 1;
    }
    r
}

/// Looks the first `<key>` line up and hands its value back, or `None`
/// when the key never occurs.
fn find_value(contents: &Vec<char>, key: &Vec<char>) -> (r: Option<Vec<char>>)
    ensures
        r is Some <==> contains_seq(contents@, key@),
        r matches Some(v) ==> v@ == value_after(contents@, key@),
{
    match find_first(contents, key) {
        Some(i) => {
            let clen = contents.len();
            let klen = key.len();
            proof {
                assert(i + klen <= clen);
            }
            let rest = slice_range(contents, i + klen, clen);
            proof {
                assert(rest@ =~= contents@.skip(i + key@.len()));
                let w = choose|w: int| first_match_at(contents@, key@, w);
                lemma_first_match_unique(contents@, key@, w, i as int);
            }
            let mut nl: Vec<char> = Vec::new();
            nl.push('\n');
            proof {
                assert(nl@ =~= seq!['\n']);
            }
            match find_first(&rest, &nl) {
                Some(j) => {
                    let v = slice_range(&rest, 0, j);
                    proof {
                        assert(v@ =~= rest@.take(j as int));
                        let w2 = choose|w2: int| first_match_at(rest@, seq!['\n'], w2);
                        lemma_first_match_unique(rest@, seq!['\n'], w2, j as int);
                    }
                    Some(v)
                },
                None => Some(rest),
            }
        },
        None => None,
    }
}

/// The final segment of a path: what follows the last separator.
pub open spec fn basename(path: Seq<char>) -> Seq<char>
    decreases path.len(),
{
    if path.len() == 0 {
        path
    } else if path.last() == '/' {
        Seq::<char>::empty()
    } else {
        basename(path.drop_last()).push(path.last())
    }
}

/// A descriptor's file stem: its basename with the `.desktop` suffix
/// removed, the launch key `gtk-launch` expects.
pub open spec fn file_stem(path: Seq<char>) -> Seq<char> {
    let base = basename(path);
    if is_desktop_path(base) {
        base.take(base.len() - 8)
    } else {
        base
    }
}

/// The path names its descriptor as `/<stem>.desktop`: it holds a
/// separator, and its final segment is a non-empty stem followed by the
/// `.desktop` suffix. A path without such a segment yields no launch
/// key, so its descriptor is skipped.
pub open spec fn has_stem_segment(path: Seq<char>) -> bool {
    &&& contains_seq(path, seq!['/'])
    &&& basename(path).len() > 8
    &&& is_desktop_path(basename(path))
}

fn basename_exec(path: &Vec<char>) -> (r: Vec<char>)
    ensures
        r@ == basename(path@),
{
    let n = path.len();
    let mut start: usize = n;
    proof {
        assert(path@.take(n as int) =~= path@);
        assert(basename(path@) + path@.subrange(n as int, n as int) =~= basename(path@));
    }
    while start > 0 && path[start - 1] != '/'
        invariant
            start <= n,
            n == path@.len(),
            basename(path@) == basename(path@.take(start as int)) + path@.subrange(
                start as int,
                n as int,
            ),
        decreases start,
    {
        proof {
            assert(path@.take(start as int).last() == path@[start - 1]);
            assert(path@.take(start as int).drop_last() =~= path@.take(start - 1));
            assert(basename(path@.take(start as int)) == basename(path@.take(start - 1)).push(
                path@[start - 1],
            ));
            assert(basename(path@.take(start - 1)).push(path@[start - 1]) + path@.subrange(
                start as int,
                n as int,
            ) =~= basename(path@.take(start - 1)) + path@.subrange(start - 1, n as int));
        }
        start = start - 1;
    }
    proof {
        if start > 0 {
            assert(path@.take(start as int).last() == '/');
            assert(basename(path@.take(start as int)) =~= Seq::<char>::empty());
        } else {
            assert(path@.take(0) =~= Seq::<char>::empty());
            assert(basename(Seq::<char>::empty()) =~= Seq::<char>::empty());
        }
        assert(Seq::<char>::empty() + path@.subrange(start as int, n as int) =~= path@.subrange(
            start as int,
            n as int,
        ));
    }
    slice_range(path, start, n)
}

fn file_stem_exec(path: &Vec<char>) -> (r: Vec<char>)
    ensures
        r@ == file_stem(path@),
{
    let base = basename_exec(path);
    if ends_with_desktop(&base) {
        let r = slice_range(&base, 0, base.len() - 8);
        proof {
            assert(r@ =~= basename(path@).take(basename(path@).len() - 8));
        }
        r
    } else {
        base
    }
}

/// What one desktop descriptor yields: a list item when it carries a
/// name and a launch command, is displayable, and describes an
/// application; nothing otherwise. A malformed descriptor is skipped,
/// never an error.
pub open spec fn parse_list_item(path: Seq<char>, contents: Seq<char>) -> Option<ListItemView> {
    if !contains_seq(contents, "\nName="@) {
        None
    } else if !contains_seq(contents, "\nExec="@) {
        None
    } else if contains_seq(contents, "\nNoDisplay=true"@) || contains_seq(
        contents,
        "\nHidden=true"@,
    ) {
        None
    } else if !contains_seq(contents, "\nType=Application"@) {
        None
    } else if !has_stem_segment(path) {
        None
    } else {
        Some(
            ListItemView {
                title: value_after(contents, "\nName="@),
                actions: seq![
                    ListItemActionView {
                        keys: seq!["↵"@],
                        text: "open"@,
                        command: CommandView {
                            program: "sh"@,
                            args: seq!["-c"@, "gtk-launch "@ + file_stem(path)],
                        },
                    },
                ],
            },
        )
    }
}

/// Parses one desktop descriptor into a launchable list item, or
/// nothing when the descriptor is unnamed, not executable, hidden, no
/// application, or found under a path with no `/<stem>.desktop`
/// segment.
pub fn to_list_item(path: &str, contents: &str) -> (r: Option<ListItem>)
    ensures
        r.deep_view() == parse_list_item(path@, contents@),
{
    let c = chars_of(contents);
    let name = match find_value(&c, &chars_of("\nName=")) {
        Some(v) => v,
        None => {
            return None;
        },
    };
    if find_value(&c, &chars_of("\nExec=")).is_none() {
        return None;
    }
    if find_value(&c, &chars_of("\nNoDisplay=true")).is_some() {
        return None;
    }
    if find_value(&c, &chars_of("\nHidden=true")).is_some() {
        return None;
    }
    if find_value(&c, &chars_of("\nType=Application")).is_none() {
        return None;
    }
    let p = chars_of(path);
    let mut slash: Vec<char> = Vec::new();
    slash.push('/');
    proof {
        assert(slash@ =~= seq!['/']);
    }
    let has_slash = crate::text::contains_chars(&p, &slash);
    let base = basename_exec(&p);
    if !has_slash || base.len() <= 8 || !ends_with_desktop(&base) {
        proof {
            assert(!has_stem_segment(path@));
        }
        return None;
    }
    let stem = file_stem_exec(&p);
    let mut launch = String::from_str("gtk-launch ");
    let stem_str = string_from_chars(&stem);
    launch.append(stem_str.as_str());
    let mut args: Vec<String> = Vec::new();
    args.push(String::from_str("-c"));
    args.push(launch);
    let mut keys: Vec<String> = Vec::new();
    keys.push(String::from_str("↵"));
    let mut actions: Vec<ListItemAction> = Vec::new();
    actions.push(
        ListItemAction {
            keys,
            text: String::from_str("open"),
            command: ActivationCommand { program: String::from_str("sh"), args },
        },
    );
    let item = ListItem { title: string_from_chars(&name), actions };
    proof {
        assert(item@.actions[0].keys =~= seq!["↵"@]);
        assert(item@.actions[0].command.args =~= seq!["-c"@, "gtk-launch "@ + file_stem(path@)]);
        assert(item@.actions =~= parse_list_item(path@, contents@)->0.actions);
        assert(item@ == parse_list_item(path@, contents@)->0);
    }
    Some(item)
}

/// Lexicographic order on character sequences, by code point.
pub open spec fn lex_le(a: Seq<char>, b: Seq<char>) -> bool
    decreases a.len(),
{
    if a.len() == 0 {
        true
    } else if b.len() == 0 {
        false
    } else if (a[0] as u32) < (b[0] as u32) {
        true
    } else if (a[0] as u32) > (b[0] as u32) {
        false
    } else {
        lex_le(a.drop_first(), b.drop_first())
    }
}

/// `lex_le` is total: any two sequences compare one way or the other.
pub proof fn lemma_lex_le_total(a: Seq<char>, b: Seq<char>)
    ensures
        lex_le(a, b) || lex_le(b, a),
    decreases a.len(),
{
    if a.len() == 0 || b.len() == 0 {
    } else if (a[0] as u32) == (b[0] as u32) {
        lemma_lex_le_total(a.drop_first(), b.drop_first());
    }
}

/// `lex_le` is transitive.
pub proof fn lemma_lex_le_trans(a: Seq<char>, b: Seq<char>, c: Seq<char>)
    requires
        lex_le(a, b),
        lex_le(b, c),
    ensures
        lex_le(a, c),
    decreases a.len(),
{
    if a.len() == 0 {
    } else if b.len() == 0 {
    } else if c.len() == 0 {
    } else {
        if (a[0] as u32) == (b[0] as u32) && (b[0] as u32) == (c[0] as u32) {
            lemma_lex_le_trans(a.drop_first(), b.drop_first(), c.drop_first());
        }
    }
}

/// Executable lexicographic comparison.
fn lex_le_exec(a: &Vec<char>, b: &Vec<char>) -> (r: bool)
    ensures
        r == lex_le(a@, b@),
{
    let alen = a.len();
    let blen = b.len();
    let mut i: usize = 0;
    proof {
        assert(a@.skip(0) =~= a@);
        assert(b@.skip(0) =~= b@);
    }
    while i < alen && i < blen
        invariant
            i <= alen,
            i <= blen,
            alen == a@.len(),
            blen == b@.len(),
            lex_le(a@, b@) == lex_le(a@.skip(i as int), b@.skip(i as int)),
        decreases alen - i,
    {
        let ca = a[i] as u32;
        let cb = b[i] as u32;
        proof {
            assert(a@.skip(i as int)[0] == a@[i as int]);
            assert(b@.skip(i as int)[0] == b@[i as int]);
            assert(a@.skip(i as int).drop_first() =~= a@.skip(i + 1));
            assert(b@.skip(i as int).drop_first() =~= b@.skip(i + 1));
        }
        if ca < cb {
            return true;
        }
        if ca > cb {
            return false;
        }
        i = i + 1;
    }
    proof {
        if i >= alen {
            assert(a@.skip(i as int).len() == 0);
        } else {
            assert(b@.skip(i as int).len() == 0);
            assert(a@.skip(i as int).len() > 0);
        }
    }
    i >= alen
}

/// The lower-cased title of a list item, the key the group is ordered
/// and deduplicated by.
pub open spec fn lower_title(item: ListItemView) -> Seq<char> {
    lower_seq(item.title)
}

/// Items in ascending lexicographic order of their lower-cased titles.
pub open spec fn items_sorted(items: Seq<ListItemView>) -> bool {
    forall|i: int, j: int|
        0 <= i < j < items.len() ==> lex_le(
            lower_title(#[trigger] items[i]),
            lower_title(#[trigger] items[j]),
        )
}

/// No two neighbouring items share a lower-cased title.
pub open spec fn items_deduped(items: Seq<ListItemView>) -> bool {
    forall|i: int|
        0 <= i < items.len() - 1 ==> lower_title(#[trigger] items[i]) != lower_title(
            items[i + 1],
        )
}

/// `item` occurs in `out`.
pub open spec fn has_item(out: Seq<ListItemView>, item: ListItemView) -> bool {
    exists|a: int| 0 <= a < out.len() && #[trigger] out[a] == item
}

/// Some member of `out` carries `item`'s lower-cased title.
pub open spec fn title_represented(out: Seq<ListItemView>, item: ListItemView) -> bool {
    exists|a: int| 0 <= a < out.len() && lower_title(#[trigger] out[a]) == lower_title(item)
}

/// Every member of `items` is a member of `source`.
pub open spec fn items_from(items: Seq<ListItemView>, source: Seq<ListItemView>) -> bool {
    forall|i: int|
        0 <= i < items.len() ==> (exists|k: int|
            0 <= k < source.len() && source[k] == #[trigger] items[i])
}

impl Clone for ListItem {
    fn clone(&self) -> (r: Self)
        ensures
            r@ == self@,
    {
        let mut actions: Vec<ListItemAction> = Vec::new();
        let n = self.actions.len();
        let mut i: usize = 0;
        while i < n
            invariant
                i <= n,
                n == self.actions@.len(),
                actions.deep_view() == self.actions.deep_view().take(i as int),
            decreases n - i,
        {
            let a = &self.actions[i];
            let mut ks: Vec<String> = Vec::new();
            let kn = a.keys.len();
            let mut k: usize = 0;
            while k < kn
                invariant
                    k <= kn,
                    kn == a.keys@.len(),
                    ks.deep_view() == a.keys.deep_view().take(k as int),
                decreases kn - k,
            {
                ks.push(a.keys[k].clone());
                proof {
                    assert(ks.deep_view() =~= a.keys.deep_view().take(k as int).push(
                        a.keys@[k as int]@,
                    ));
                    assert(a.keys.deep_view().take(k + 1) =~= a.keys.deep_view().take(
                        k as int,
                    ).push(a.keys@[k as int]@));
                }
                k = k + 1;
            }
            proof {
                assert(a.keys.deep_view().take(kn as int) =~= a.keys.deep_view());
            }
            let mut cargs: Vec<String> = Vec::new();
            let cn = a.command.args.len();
            let mut c: usize = 0;
            while c < cn
                invariant
                    c <= cn,
                    cn == a.command.args@.len(),
                    cargs.deep_view() == a.command.args.deep_view().take(c as int),
                decreases cn - c,
            {
                cargs.push(a.command.args[c].clone());
                proof {
                    assert(cargs.deep_view() =~= a.command.args.deep_view().take(c as int).push(
                        a.command.args@[c as int]@,
                    ));
                    assert(a.command.args.deep_view().take(c + 1) =~= a.command.args.deep_view()
                        .take(c as int).push(a.command.args@[c as int]@));
                }
                c = c + 1;
            }
            proof {
                assert(a.command.args.deep_view().take(cn as int) =~= a.command.args.deep_view());
            }
            let na = ListItemAction {
                keys: ks,
                text: a.text.clone(),
                command: ActivationCommand { program: a.command.program.clone(), args: cargs },
            };
            proof {
                assert(na@ == self.actions@[i as int]@);
            }
            actions.push(na);
            proof {
                assert(actions.deep_view() =~= self.actions.deep_view().take(i as int).push(
                    self.actions@[i as int]@,
                ));
                assert(self.actions.deep_view().take(i + 1) =~= self.actions.deep_view().take(
                    i as int,
                ).push(self.actions@[i as int]@));
            }
            i = i + 1;
        }
        proof {
            assert(self.actions.deep_view().take(n as int) =~= self.actions.deep_view());
        }
        let r = ListItem { title: self.title.clone(), actions };
        proof {
            assert(r@ == self@);
        }
        r
    }
}

/// Insertion sort over lower-cased titles. Each item is inserted after
/// every item of lower or equal key, so items with equal keys keep
/// their processing order; the result is sorted and holds exactly the
/// members of the input.
#[verifier::loop_isolation(false)]
fn sort_items(items: Vec<ListItem>) -> (r: Vec<ListItem>)
    ensures
        items_sorted(r.deep_view()),
        items_from(r.deep_view(), items.deep_view()),
        forall|k: int|
            0 <= k < items.deep_view().len() ==> has_item(
                r.deep_view(),
                #[trigger] items.deep_view()[k],
            ),
{
    let n = items.len();
    let mut r: Vec<ListItem> = Vec::new();
    let mut i: usize = 0;
    proof {
        assert(r.deep_view() =~= Seq::<ListItemView>::empty());
    }
    while i < n
        invariant
            i <= n,
            n == items.deep_view().len(),
            items_sorted(r.deep_view()),
            items_from(r.deep_view(), items.deep_view()),
            forall|k: int|
                0 <= k < i ==> has_item(r.deep_view(), #[trigger] items.deep_view()[k]),
        decreases n - i,
    {
        let item = items[i].clone();
        let key = lower_chars(item.title.as_str());
        let rlen = r.len();
        let mut pos: usize = 0;
        while pos < rlen && lex_le_exec(&lower_chars(r[pos].title.as_str()), &key)
            invariant
                pos <= rlen,
                rlen == r.deep_view().len(),
                key@ == lower_title(item@),
                forall|k: int|
                    0 <= k < pos ==> lex_le(
                        lower_title(#[trigger] r.deep_view()[k]),
                        lower_title(item@),
                    ),
            decreases rlen - pos,
        {
            pos = pos + 1;
        }
        let ghost pre = r.deep_view();
        proof {
            if pos < rlen {
                lemma_lex_le_total(lower_title(pre[pos as int]), lower_title(item@));
                assert(lex_le(lower_title(item@), lower_title(pre[pos as int])));
            }
        }
        r.insert(pos, item);
        proof {
            let s1 = r.deep_view();
            assert(s1 =~= pre.insert(pos as int, item@));
            assert(forall|k: int| 0 <= k < pos ==> #[trigger] s1[k] == pre[k]);
            assert(s1[pos as int] == item@);
            assert(forall|k: int| pos < k < s1.len() ==> #[trigger] s1[k] == pre[k - 1]);
            assert forall|a: int, b: int| 0 <= a < b < s1.len() implies lex_le(
                lower_title(#[trigger] s1[a]),
                lower_title(#[trigger] s1[b]),
            ) by {
                if b < pos {
                } else if b == pos {
                } else if a == pos {
                    assert(lex_le(lower_title(item@), lower_title(pre[pos as int])));
                    if b - 1 > pos {
                        lemma_lex_le_trans(
                            lower_title(item@),
                            lower_title(pre[pos as int]),
                            lower_title(pre[b - 1]),
                        );
                    }
                } else if a < pos {
                } else {
                }
            }
            assert(items_from(s1, items.deep_view())) by {
                assert(0 <= i < items.deep_view().len() && items.deep_view()[i as int] == item@);
            }
            assert forall|k: int| 0 <= k < i + 1 implies has_item(
                s1,
                #[trigger] items.deep_view()[k],
            ) by {
                if k == i {
                    assert(s1[pos as int] == items.deep_view()[k]);
                } else {
                    assert(has_item(pre, items.deep_view()[k]));
                    let a = choose|a: int|
                        0 <= a < pre.len() && #[trigger] pre[a] == items.deep_view()[k];
                    if a < pos {
                        assert(s1[a] == items.deep_view()[k]);
                    } else {
                        assert(s1[a + 1] == items.deep_view()[k]);
                    }
                }
            }
        }
        i = i + 1;
    }
    r
}

/// One pass that keeps the first of each run of equal lower-cased
/// titles.
#[verifier::loop_isolation(false)]
fn dedup_items(items: Vec<ListItem>) -> (r: Vec<ListItem>)
    requires
        items_sorted(items.deep_view()),
    ensures
        items_sorted(r.deep_view()),
        items_deduped(r.deep_view()),
        items_from(r.deep_view(), items.deep_view()),
        forall|k: int|
            0 <= k < items.deep_view().len() ==> title_represented(
                r.deep_view(),
                #[trigger] items.deep_view()[k],
            ),
{
    let n = items.len();
    let mut r: Vec<ListItem> = Vec::new();
    let mut i: usize = 0;
    proof {
        assert(r.deep_view() =~= Seq::<ListItemView>::empty());
    }
    while i < n
        invariant
            i <= n,
            n == items.deep_view().len(),
            items_sorted(r.deep_view()),
            items_deduped(r.deep_view()),
            items_from(r.deep_view(), items.deep_view()),
            forall|k: int|
                0 <= k < i ==> title_represented(r.deep_view(), #[trigger] items.deep_view()[k]),
            r.deep_view().len() > 0 ==> i > 0 && lower_title(
                r.deep_view().last(),
            ) == lower_title(items.deep_view()[i - 1]),
            forall|a: int, k: int|
                0 <= a < r.deep_view().len() && i <= k < n ==> lex_le(
                    lower_title(#[trigger] r.deep_view()[a]),
                    lower_title(#[trigger] items.deep_view()[k]),
                ),
        decreases n - i,
    {
        let keep: bool;
        if r.len() == 0 {
            keep = true;
        } else {
            keep = !same_lower_title(&r[r.len() - 1], &items[i]);
        }
        let ghost pre = r.deep_view();
        if keep {
            r.push(items[i].clone());
            proof {
                let s1 = r.deep_view();
                assert(s1 =~= pre.push(items.deep_view()[i as int]));
                assert(forall|k: int| 0 <= k < pre.len() ==> #[trigger] s1[k] == pre[k]);
                assert(s1.last() == items.deep_view()[i as int]);
                assert(items_from(s1, items.deep_view())) by {
                    assert(0 <= i < items.deep_view().len());
                }
                assert forall|k: int| 0 <= k < i + 1 implies title_represented(
                    s1,
                    #[trigger] items.deep_view()[k],
                ) by {
                    if k == i {
                        assert(s1[s1.len() - 1] == items.deep_view()[k]);
                    } else {
                        assert(title_represented(pre, items.deep_view()[k]));
                        let a = choose|a: int|
                            0 <= a < pre.len() && lower_title(#[trigger] pre[a]) == lower_title(
                                items.deep_view()[k],
                            );
                        assert(lower_title(s1[a]) == lower_title(items.deep_view()[k]));
                    }
                }
            }
        } else {
            proof {
                assert forall|k: int| 0 <= k < i + 1 implies title_represented(
                    pre,
                    #[trigger] items.deep_view()[k],
                ) by {
                    if k == i {
                        assert(lower_title(pre[pre.len() - 1]) == lower_title(
                            items.deep_view()[i as int],
                        ));
                    }
                }
            }
        }
        i = i + 1;
    }
    r
}

/// `lex_le` is reflexive.
proof fn lemma_lex_le_refl(a: Seq<char>)
    ensures
        lex_le(a, a),
    decreases a.len(),
{
    if a.len() > 0 {
        lemma_lex_le_refl(a.drop_first());
    }
}

/// Whether two items share one lower-cased title.
fn same_lower_title(a: &ListItem, b: &ListItem) -> (r: bool)
    ensures
        r == (lower_title(a@) == lower_title(b@)),
{
    let ka = lower_chars(a.title.as_str());
    let kb = lower_chars(b.title.as_str());
    if ka.len() != kb.len() {
        return false;
    }
    let le1 = lex_le_exec(&ka, &kb);
    let le2 = lex_le_exec(&kb, &ka);
    if le1 && le2 {
        proof {
            lemma_lex_le_antisym(ka@, kb@);
        }
        true
    } else {
        proof {
            if ka@ == kb@ {
                lemma_lex_le_refl(ka@);
            }
        }
        false
    }
}

/// Equal-length sequences that compare below each other are equal.
proof fn lemma_lex_le_antisym(a: Seq<char>, b: Seq<char>)
    requires
        a.len() == b.len(),
        lex_le(a, b),
        lex_le(b, a),
    ensures
        a == b,
    decreases a.len(),
{
    if a.len() == 0 {
        assert(a =~= b);
    } else {
        lemma_lex_le_antisym(a.drop_first(), b.drop_first());
        assert(a[0] == b[0]) by {
            vstd::utf8::char_u32_cast(a[0], a[0] as u32);
            vstd::utf8::char_u32_cast(b[0], b[0] as u32);
        }
        assert(a =~= b) by {
            assert(forall|i: int|
                1 <= i < a.len() ==> #[trigger] a[i] == a.drop_first()[i - 1]);
            assert(forall|i: int|
                1 <= i < b.len() ==> #[trigger] b[i] == b.drop_first()[i - 1]);
        }
    }
}

/// `item` is what parsing some member of `files` yields.
pub open spec fn item_from_files(item: ListItemView, files: Seq<DesktopFileView>) -> bool {
    exists|k: int|
        0 <= k < files.len() && parse_list_item((#[trigger] files[k]).path, files[k].contents)
            == Some(item)
}

/// The applications group: each descriptor parsed, the survivors taken
/// in reverse walk order, sorted alphabetically by lower-cased title,
/// and deduplicated so that one application discovered under several
/// paths appears once; among descriptors sharing a lower-cased title,
/// the one latest in walk order supplies the surviving item.
pub fn get_applications_group(files: &Vec<DesktopFile>) -> (r: ItemGroup)
    ensures
        r.name@ == "Apps"@,
        r.icon@ == "Rocket"@,
        items_sorted(r.items.deep_view()),
        items_deduped(r.items.deep_view()),
        forall|i: int|
            0 <= i < r.items.deep_view().len() ==> item_from_files(
                #[trigger] r.items.deep_view()[i],
                files.deep_view(),
            ),
        forall|k: int|
            0 <= k < files.deep_view().len() ==> match parse_list_item(
                (#[trigger] files.deep_view()[k]).path,
                files.deep_view()[k].contents,
            ) {
                Some(item) => title_represented(r.items.deep_view(), item),
                None => true,
            },
{
    let n = files.len();
    let mut parsed: Vec<ListItem> = Vec::new();
    let mut i: usize = n;
    proof {
        assert(parsed.deep_view() =~= Seq::<ListItemView>::empty());
    }
    while i > 0
        invariant
            i <= n,
            n == files@.len(),
            forall|a: int|
                0 <= a < parsed.deep_view().len() ==> item_from_files(
                    #[trigger] parsed.deep_view()[a],
                    files.deep_view(),
                ),
            forall|k: int|
                i <= k < n ==> match parse_list_item(
                    (#[trigger] files.deep_view()[k]).path,
                    files.deep_view()[k].contents,
                ) {
                    Some(item) => has_item(parsed.deep_view(), item),
                    None => true,
                },
        decreases i,
    {
        i = i - 1;
        let ghost pre = parsed.deep_view();
        match to_list_item(files[i].path.as_str(), files[i].contents.as_str()) {
            Some(item) => {
                parsed.push(item);
                proof {
                    let s1 = parsed.deep_view();
                    assert(forall|k: int| 0 <= k < pre.len() ==> #[trigger] s1[k] == pre[k]);
                    assert(parse_list_item(
                        files.deep_view()[i as int].path,
                        files.deep_view()[i as int].contents,
                    ) == Some(s1.last()));
                    assert forall|k: int|
                        i <= k < n && parse_list_item(
                            (#[trigger] files.deep_view()[k]).path,
                            files.deep_view()[k].contents,
                        ) is Some implies has_item(
                        s1,
                        parse_list_item(
                            files.deep_view()[k].path,
                            files.deep_view()[k].contents,
                        )->0,
                    ) by {
                        let it = parse_list_item(
                            files.deep_view()[k].path,
                            files.deep_view()[k].contents,
                        )->0;
                        if k == i {
                            assert(s1[s1.len() - 1] == it);
                        } else {
                            assert(has_item(pre, it));
                            let a = choose|a: int| 0 <= a < pre.len() && #[trigger] pre[a] == it;
                            assert(s1[a] == it);
                        }
                    }
                }
            },
            None => {},
        }
    }
    let sorted = sort_items(parsed);
    let items = dedup_items(sorted);
    proof {
        assert forall|k: int|
            0 <= k < files.deep_view().len() && parse_list_item(
                (#[trigger] files.deep_view()[k]).path,
                files.deep_view()[k].contents,
            ) is Some implies title_represented(
            items.deep_view(),
            parse_list_item(files.deep_view()[k].path, files.deep_view()[k].contents)->0,
        ) by {
            let it = parse_list_item(
                files.deep_view()[k].path,
                files.deep_view()[k].contents,
            )->0;
            assert(has_item(parsed.deep_view(), it));
            let a = choose|a: int|
                0 <= a < parsed.deep_view().len() && #[trigger] parsed.deep_view()[a] == it;
            assert(has_item(sorted.deep_view(), parsed.deep_view()[a]));
            let b = choose|b: int|
                0 <= b < sorted.deep_view().len() && #[trigger] sorted.deep_view()[b] == it;
            assert(title_represented(items.deep_view(), sorted.deep_view()[b]));
        }
    }
    ItemGroup { name: String::from_str("Apps"), icon: String::from_str("Rocket"), items }
}

} // verus!
