use vstd::prelude::*;
use crate::error::{NameError, NameFault, ShvlError, ShvlFault};
use crate::order::{string_views, sorted, insert_sorted};
use crate::text::{chars_of, split_on, split_str, lemma_split_on_nonempty};

verus! {

/// A control character: general category Cc of Unicode, which is the code
/// points U+0000 to U+001F and U+007F to U+009F (what `char::is_control` tests).
pub open spec fn is_control(c: char) -> bool {
    (c as int) <= 0x1f || (0x7f <= (c as int) && (c as int) <= 0x9f)
}

/// Whether `c` is a control character, as `char::is_control` answers.
pub fn is_control_char(c: char) -> (r: bool)
    ensures
        r == is_control(c),
{
    c <= '\u{1f}' || ('\u{7f}' <= c && c <= '\u{9f}')
}

/// The first rule that the segment `seg` of the group name `group` breaks.
pub open spec fn segment_fault(group: Seq<char>, seg: Seq<char>) -> Option<NameFault> {
    if seg.len() == 0 {
        Some(NameFault::EmptySegment(group))
    } else if seg == seq!['.'] || seg == seq!['.', '.'] {
        Some(NameFault::DotSegment(group))
    } else if seg[0] == '.' {
        Some(NameFault::HiddenSegment(seg))
    } else if seg.contains('\\') {
        Some(NameFault::Backslash(seg))
    } else if exists|i: int| 0 <= i < seg.len() && is_control(#[trigger] seg[i]) {
        Some(NameFault::ControlCharacter(seg))
    } else {
        None
    }
}

/// The first fault among `segs`, taken in order.
pub open spec fn segments_fault(group: Seq<char>, segs: Seq<Seq<char>>) -> Option<NameFault>
    decreases segs.len(),
{
    if segs.len() == 0 {
        None
    } else {
        match segment_fault(group, segs[0]) {
            Some(f) => Some(f),
            None => segments_fault(group, segs.drop_first()),
        }
    }
}

/// What `validate_group_name` answers for `group`: the checks on the whole
/// name first, then those on each `/` separated segment in order.
pub open spec fn name_check(group: Seq<char>) -> Result<(), NameFault> {
    if group.len() == 0 {
        Err(NameFault::Empty)
    } else if group[0] == '/' {
        Err(NameFault::LeadingSlash)
    } else if group.last() == '/' {
        Err(NameFault::TrailingSlash)
    } else {
        match segments_fault(group, split_on(group, '/')) {
            Some(f) => Err(f),
            None => Ok(()),
        }
    }
}

/// A segment that the naming rules accept.
pub open spec fn valid_segment(seg: Seq<char>) -> bool {
    &&& seg.len() > 0
    &&& seg != seq!['.'] && seg != seq!['.', '.']
    &&& seg[0] != '.'
    &&& !seg.contains('\\')
    &&& forall|i: int| 0 <= i < seg.len() ==> !is_control(#[trigger] seg[i])
}

/// The naming rules: not empty, no `/` at either end, and every segment
/// non-empty, neither `.` nor `..`, not starting with `.`, and free of `\`
/// and control characters.
pub open spec fn valid_group_name(group: Seq<char>) -> bool {
    &&& group.len() > 0
    &&& group[0] != '/'
    &&& group.last() != '/'
    &&& forall|i: int|
        0 <= i < split_on(group, '/').len() ==> valid_segment(#[trigger] split_on(group, '/')[i])
}

fn segment_check(group: &str, seg: &String) -> (r: Result<(), NameError>)
    ensures
        match segment_fault(group@, seg@) {
            None => r is Ok,
            Some(f) => r matches Err(e) && e@ == f,
        },
{
    let cs = chars_of(seg.as_str());
    if cs.len() == 0 {
        return Err(NameError::EmptySegment(group.to_owned()));
    }
    if (cs.len() == 1 && cs[0] == '.') || (cs.len() == 2 && cs[0] == '.' && cs[1] == '.') {
        assert(cs@ =~= seq!['.'] || cs@ =~= seq!['.', '.']);
        return Err(NameError::DotSegment(group.to_owned()));
    }
    assert(seg@ != seq!['.']);
    assert(seg@ != seq!['.', '.']);
    if cs[0] == '.' {
        return Err(NameError::HiddenSegment(seg.clone()));
    }
    let mut i: usize = 0;
    while i < cs.len()
        invariant
            i <= cs.len(),
            cs@ == seg@,
            seg@.len() > 0,
            seg@ != seq!['.'] && seg@ != seq!['.', '.'],
            seg@[0] != '.',
            forall|j: int| 0 <= j < i ==> cs@[j] != '\\',
        decreases cs.len() - i,
    {
        if cs[i] == '\\' {
            assert(seg@.contains('\\'));
            return Err(NameError::Backslash(seg.clone()));
        }
        i = i + 1;
    }
    assert(!seg@.contains('\\'));
    let mut i: usize = 0;
    while i < cs.len()
        invariant
            i <= cs.len(),
            cs@ == seg@,
            seg@.len() > 0,
            seg@ != seq!['.'] && seg@ != seq!['.', '.'],
            seg@[0] != '.',
            !seg@.contains('\\'),
            forall|j: int| 0 <= j < i ==> !is_control(#[trigger] cs@[j]),
        decreases cs.len() - i,
    {
        if is_control_char(cs[i]) {
            assert(is_control(seg@[i as int]));
            return Err(NameError::ControlCharacter(seg.clone()));
        }
        i = i + 1;
    }
    Ok(())
}

/// Validates a group name. Group names are `/` separated paths relative to the
/// `.shvl` dir, where the final segment names the `.nix` file and any preceding
/// segments name subdirectories.
pub fn validate_group_name(group: &str) -> (r: Result<(), NameError>)
    ensures
        match name_check(group@) {
            Ok(_) => r is Ok,
            Err(f) => r matches Err(e) && e@ == f,
        },
{
    let cs = chars_of(group);
    if cs.len() == 0 {
        return Err(NameError::Empty);
    }
    if cs[0] == '/' {
        return Err(NameError::LeadingSlash);
    }
    if cs[cs.len() - 1] == '/' {
        return Err(NameError::TrailingSlash);
    }
    let segs = split_str(group, '/');
    let ghost all = split_on(group@, '/');
    assert(all.skip(0) =~= all);
    let mut i: usize = 0;
    while i < segs.len()
        invariant
            i <= segs.len(),
            string_views(segs@) == all,
            all == split_on(group@, '/'),
            group@.len() > 0,
            group@[0] != '/',
            group@.last() != '/',
            segments_fault(group@, all) == segments_fault(group@, all.skip(i as int)),
        decreases segs.len() - i,
    {
        assert(all.skip(i as int).drop_first() =~= all.skip(i + 1));
        assert(all.skip(i as int)[0] == segs@[i as int]@);
        match segment_check(group, &segs[i]) {
            Err(e) => {
                return Err(e);
            },
            Ok(()) => {},
        }
        i = i + 1;
    }
    assert(all.skip(i as int) =~= Seq::<Seq<char>>::empty());
    Ok(())
}

proof fn lemma_segment_fault_none(group: Seq<char>, seg: Seq<char>)
    ensures
        segment_fault(group, seg) is None <==> valid_segment(seg),
{
}

proof fn lemma_segments_fault_none(group: Seq<char>, segs: Seq<Seq<char>>)
    ensures
        segments_fault(group, segs) is None <==> forall|i: int|
            0 <= i < segs.len() ==> valid_segment(#[trigger] segs[i]),
    decreases segs.len(),
{
    if segs.len() > 0 {
        lemma_segments_fault_none(group, segs.drop_first());
        lemma_segment_fault_none(group, segs[0]);
        if segments_fault(group, segs) is None {
            assert forall|i: int| 0 <= i < segs.len() implies valid_segment(#[trigger] segs[i]) by {
                if i > 0 {
                    assert(segs[i] == segs.drop_first()[i - 1]);
                }
            }
        } else if forall|i: int| 0 <= i < segs.len() ==> valid_segment(#[trigger] segs[i]) {
            assert(valid_segment(segs[0]));
            assert forall|i: int|
                0 <= i < segs.drop_first().len() implies valid_segment(
                #[trigger] segs.drop_first()[i],
            ) by {
                assert(segs.drop_first()[i] == segs[i + 1]);
            }
        }
    }
}

/// A group name is accepted exactly when it keeps every naming rule.
pub proof fn lemma_name_check_is_naming_rules(group: Seq<char>)
    ensures
        name_check(group) is Ok <==> valid_group_name(group),
{
    lemma_segments_fault_none(group, split_on(group, '/'));
}

/// `path` with `seg` appended as one more component, the way
/// `PathBuf::push` appends a relative path on Unix: a `/` goes between them
/// unless `path` is empty or already ends with one.
pub open spec fn path_push(path: Seq<char>, seg: Seq<char>) -> Seq<char> {
    if path.len() == 0 || path.last() == '/' {
        path + seg
    } else {
        path + seq!['/'] + seg
    }
}

/// `path` with each of `segs` pushed in turn.
pub open spec fn push_all(path: Seq<char>, segs: Seq<Seq<char>>) -> Seq<char>
    decreases segs.len(),
{
    if segs.len() == 0 {
        path
    } else {
        path_push(push_all(path, segs.drop_last()), segs.last())
    }
}

/// The extension of group files.
pub open spec fn nix_ext() -> Seq<char> {
    seq!['.', 'n', 'i', 'x']
}

/// The components of a group's file: the segments, with `.nix` after the last.
pub open spec fn file_segments(segs: Seq<Seq<char>>) -> Seq<Seq<char>> {
    segs.update(segs.len() - 1, segs.last() + nix_ext())
}

/// Where the file of the group `group` lies under `base`.
pub open spec fn group_file_path(base: Seq<char>, group: Seq<char>) -> Seq<char> {
    push_all(base, file_segments(split_on(group, '/')))
}

/// What `group_path` answers: the file's path for an accepted name, the
/// refusal otherwise.
pub open spec fn group_path_result(base: Seq<char>, group: Seq<char>) -> Result<Seq<char>, ShvlFault> {
    match name_check(group) {
        Err(f) => Err(ShvlFault::InvalidGroupName(f)),
        Ok(_) => Ok(group_file_path(base, group)),
    }
}

/// Appends `seg` to `path` as `PathBuf::push` appends a relative component.
pub fn push_segment(path: &mut String, seg: &str)
    ensures
        final(path)@ == path_push(old(path)@, seg@),
{
    let cs = chars_of(path.as_str());
    if cs.len() > 0 && cs[cs.len() - 1] != '/' {
        path.append("/");
        assert("/"@ =~= seq!['/']) by {
            reveal_strlit("/");
        }
    }
    path.append(seg);
}

proof fn lemma_push_all_take(path: Seq<char>, segs: Seq<Seq<char>>, i: int)
    requires
        0 <= i < segs.len(),
    ensures
        push_all(path, segs.take(i + 1)) == path_push(push_all(path, segs.take(i)), segs[i]),
{
    assert(segs.take(i + 1).drop_last() =~= segs.take(i));
}

/// Resolves a group name to the path of its `.nix` file inside `base`.
pub fn group_path(base: &str, group: &str) -> (r: Result<String, ShvlError>)
    ensures
        match group_path_result(base@, group@) {
            Ok(p) => r matches Ok(s) && s@ == p,
            Err(f) => r matches Err(e) && e@ == f,
        },
{
    match validate_group_name(group) {
        Err(e) => {
            return Err(ShvlError::InvalidGroupName(e));
        },
        Ok(()) => {},
    }
    let segs = split_str(group, '/');
    let ghost file_segs = file_segments(split_on(group@, '/'));
    proof {
        lemma_split_on_nonempty(group@, '/');
    }
    let n = segs.len();
    let mut path = base.to_owned();
    let mut i: usize = 0;
    assert(file_segs.take(0) =~= Seq::<Seq<char>>::empty());
    while i < n
        invariant
            i <= n,
            n == segs@.len(),
            n >= 1,
            string_views(segs@) == split_on(group@, '/'),
            file_segs == file_segments(split_on(group@, '/')),
            path@ == push_all(base@, file_segs.take(i as int)),
        decreases n - i,
    {
        proof {
            lemma_push_all_take(base@, file_segs, i as int);
        }
        if i + 1 == n {
            let mut last = segs[i].clone();
            last.append(".nix");
            assert(".nix"@ =~= nix_ext()) by {
                reveal_strlit(".nix");
            }
            push_segment(&mut path, last.as_str());
        } else {
            push_segment(&mut path, segs[i].as_str());
        }
        i = i + 1;
    }
    assert(file_segs.take(n as int) =~= file_segs);
    Ok(path)
}

proof fn lemma_path_push_prefix(path: Seq<char>, seg: Seq<char>)
    ensures
        path_push(path, seg).len() >= path.len(),
        path_push(path, seg).take(path.len() as int) == path,
{
    assert(path_push(path, seg).take(path.len() as int) =~= path);
}

/// Pushing components never changes what was already there.
pub proof fn lemma_push_all_prefix(path: Seq<char>, segs: Seq<Seq<char>>)
    ensures
        push_all(path, segs).len() >= path.len(),
        push_all(path, segs).take(path.len() as int) == path,
    decreases segs.len(),
{
    if segs.len() > 0 {
        let before = push_all(path, segs.drop_last());
        lemma_push_all_prefix(path, segs.drop_last());
        lemma_path_push_prefix(before, segs.last());
        assert(push_all(path, segs).take(path.len() as int) =~= before.take(path.len() as int));
    }
}

/// The path of a group's file always lies under the base directory: the
/// base is a prefix of it.
pub proof fn lemma_group_path_within_base(base: Seq<char>, group: Seq<char>)
    ensures
        group_path_result(base, group) matches Ok(p) ==> p.len() >= base.len() && p.take(
            base.len() as int,
        ) == base,
{
    lemma_push_all_prefix(base, file_segments(split_on(group, '/')));
}

/// The directories that removing the group `group` may leave empty, deepest
/// first: the directory of its file, then each one above it, down to (but not
/// including) `base`.
pub open spec fn prune_dirs(base: Seq<char>, group: Seq<char>) -> Seq<Seq<char>> {
    let segs = split_on(group, '/');
    Seq::new((segs.len() - 1) as nat, |j: int| push_all(base, segs.take(segs.len() - 1 - j)))
}

/// For an accepted group name, the directories under `base` that may be left
/// empty once the group's file is gone, deepest first; the name's refusal
/// otherwise.
pub fn dirs_to_prune(base: &str, group: &str) -> (r: Result<Vec<String>, ShvlError>)
    ensures
        match name_check(group@) {
            Ok(_) => r matches Ok(v) && string_views(v@) == prune_dirs(base@, group@),
            Err(f) => r matches Err(e) && e@ == ShvlFault::InvalidGroupName(f),
        },
{
    match validate_group_name(group) {
        Err(e) => {
            return Err(ShvlError::InvalidGroupName(e));
        },
        Ok(()) => {},
    }
    let segs = split_str(group, '/');
    let ghost all = split_on(group@, '/');
    proof {
        lemma_split_on_nonempty(group@, '/');
    }
    let n = segs.len();
    // the paths of the directories, from the shallowest (one segment) down
    let mut shallow_first: Vec<String> = Vec::new();
    let mut path = base.to_owned();
    let mut i: usize = 0;
    assert(all.take(0) =~= Seq::<Seq<char>>::empty());
    while i + 1 < n
        invariant
            i + 1 <= n,
            n == segs@.len(),
            string_views(segs@) == all,
            path@ == push_all(base@, all.take(i as int)),
            shallow_first@.len() == i,
            forall|k: int| 0 <= k < i ==> #[trigger] shallow_first@[k]@ == push_all(base@, all.take(k + 1)),
        decreases n - i,
    {
        proof {
            lemma_push_all_take(base@, all, i as int);
        }
        push_segment(&mut path, segs[i].as_str());
        shallow_first.push(path.clone());
        i = i + 1;
    }
    let mut out: Vec<String> = Vec::new();
    let mut k: usize = shallow_first.len();
    while k > 0
        invariant
            k <= shallow_first@.len(),
            shallow_first@.len() + 1 == n,
            n == all.len(),
            forall|m: int| 0 <= m < shallow_first@.len() ==> #[trigger] shallow_first@[m]@ == push_all(base@, all.take(m + 1)),
            out@.len() + k == shallow_first@.len(),
            forall|j: int| 0 <= j < out@.len() ==> #[trigger] out@[j]@ == push_all(base@, all.take(all.len() - 1 - j)),
        decreases k,
    {
        k = k - 1;
        out.push(shallow_first[k].clone());
    }
    assert(string_views(out@) =~= prune_dirs(base@, group@));
    Ok(out)
}

/// What the walk over the base directory does with one entry.
pub enum EntryKind {
    /// Not a group and nothing to look into.
    Skip,
    /// A directory to walk, with the name prefix for what it holds.
    Descend(String),
    /// The file of the group with this name.
    Group(String),
}

/// `EntryKind` with its names as character sequences.
pub enum EntryPlan {
    Skip,
    Descend(Seq<char>),
    Group(Seq<char>),
}

impl View for EntryKind {
    type V = EntryPlan;

    open spec fn view(&self) -> EntryPlan {
        match self {
            EntryKind::Skip => EntryPlan::Skip,
            EntryKind::Descend(p) => EntryPlan::Descend(p@),
            EntryKind::Group(n) => EntryPlan::Group(n@),
        }
    }
}

/// `name` under `prefix`: joined by `/`, or `name` alone at the top.
pub open spec fn join_name(prefix: Seq<char>, name: Seq<char>) -> Seq<char> {
    if prefix.len() == 0 {
        name
    } else {
        prefix + seq!['/'] + name
    }
}

/// What to do with the entry `file_name` of a directory whose groups have
/// names starting with `prefix`: hidden entries are skipped (they can never be
/// valid segments), directories are walked, and a file `stem.nix` with a
/// non-empty stem is the group `prefix/stem`; anything else is skipped.
pub open spec fn entry_plan(prefix: Seq<char>, file_name: Seq<char>, is_dir: bool) -> EntryPlan {
    if file_name.len() > 0 && file_name[0] == '.' {
        EntryPlan::Skip
    } else if is_dir {
        EntryPlan::Descend(join_name(prefix, file_name))
    } else if file_name.len() > 4 && file_name.skip(file_name.len() - 4) == nix_ext() {
        EntryPlan::Group(join_name(prefix, file_name.take(file_name.len() - 4)))
    } else {
        EntryPlan::Skip
    }
}

fn join_name_str(prefix: &str, name: &str) -> (r: String)
    ensures
        r@ == join_name(prefix@, name@),
{
    if prefix.is_empty() {
        name.to_owned()
    } else {
        let mut r = prefix.to_owned();
        r.append("/");
        r.append(name);
        assert("/"@ =~= seq!['/']) by {
            reveal_strlit("/");
        }
        r
    }
}

/// Decides what the walk over the base directory does with the entry
/// `file_name` (a directory when `is_dir`) found where group names start with
/// `prefix`.
pub fn classify_entry(prefix: &str, file_name: &str, is_dir: bool) -> (r: EntryKind)
    ensures
        r@ == entry_plan(prefix@, file_name@, is_dir),
{
    let cs = chars_of(file_name);
    let n = cs.len();
    if n > 0 && cs[0] == '.' {
        return EntryKind::Skip;
    }
    if is_dir {
        return EntryKind::Descend(join_name_str(prefix, file_name));
    }
    if n > 4 && cs[n - 4] == '.' && cs[n - 3] == 'n' && cs[n - 2] == 'i' && cs[n - 1] == 'x' {
        assert(file_name@.skip(n - 4) =~= nix_ext());
        let stem = file_name.substring_char(0, n - 4);
        assert(stem@ =~= file_name@.take(n - 4));
        return EntryKind::Group(join_name_str(prefix, stem));
    }
    assert(!(file_name@.len() > 4 && file_name@.skip(file_name@.len() - 4) == nix_ext())) by {
        if file_name@.len() > 4 && file_name@.skip(file_name@.len() - 4) == nix_ext() {
            assert(file_name@.skip(n - 4)[0] == cs@[n - 4]);
            assert(file_name@.skip(n - 4)[1] == cs@[n - 3]);
            assert(file_name@.skip(n - 4)[2] == cs@[n - 2]);
            assert(file_name@.skip(n - 4)[3] == cs@[n - 1]);
        }
    }
    EntryKind::Skip
}

/// The names of the groups that a walk of the base directory found, sorted.
pub fn get_group_names(found: Vec<String>) -> (names: Vec<String>)
    ensures
        sorted(string_views(names@)),
        string_views(names@).to_multiset() == string_views(found@).to_multiset(),
{
    let mut names: Vec<String> = Vec::new();
    let mut i: usize = 0;
    assert(string_views(found@.take(0)) =~= Seq::<Seq<char>>::empty());
    assert(string_views(names@) =~= Seq::<Seq<char>>::empty());
    while i < found.len()
        invariant
            i <= found@.len(),
            sorted(string_views(names@)),
            string_views(names@).to_multiset() == string_views(found@.take(i as int)).to_multiset(),
        decreases found@.len() - i,
    {
        insert_sorted(&mut names, found[i].clone());
        assert(string_views(found@.take(i + 1)) =~= string_views(found@.take(i as int)).push(
            found@[i as int]@,
        ));
        proof {
            vstd::seq_lib::to_multiset_build(string_views(found@.take(i as int)), found@[i as int]@);
        }
        i = i + 1;
    }
    assert(found@.take(i as int) =~= found@);
    names
}

/// The group name made of `segs`, joined by `/`.
pub open spec fn join_segments(segs: Seq<Seq<char>>) -> Seq<char>
    decreases segs.len(),
{
    if segs.len() <= 1 {
        if segs.len() == 0 {
            Seq::empty()
        } else {
            segs[0]
        }
    } else {
        join_segments(segs.drop_last()) + seq!['/'] + segs.last()
    }
}

proof fn lemma_split_on_no_sep(b: Seq<char>, sep: char)
    requires
        !b.contains(sep),
    ensures
        split_on(b, sep) == seq![b],
    decreases b.len(),
{
    if b.len() > 0 {
        assert(!b.drop_last().contains(sep)) by {
            if b.drop_last().contains(sep) {
                let k = choose|k: int| 0 <= k < b.drop_last().len() && b.drop_last()[k] == sep;
                assert(b[k] == sep);
            }
        }
        lemma_split_on_no_sep(b.drop_last(), sep);
        assert(b.last() != sep);
        assert(b.drop_last().push(b.last()) =~= b);
        assert(seq![b.drop_last()].update(0, b.drop_last().push(b.last())) =~= seq![b]);
    } else {
        assert(b =~= Seq::<char>::empty());
    }
}

proof fn lemma_split_on_append(a: Seq<char>, b: Seq<char>, sep: char)
    requires
        !b.contains(sep),
    ensures
        split_on(a + seq![sep] + b, sep) == split_on(a, sep).push(b),
    decreases b.len(),
{
    lemma_split_on_nonempty(a, sep);
    if b.len() == 0 {
        assert((a + seq![sep] + b).drop_last() =~= a);
        assert(b =~= Seq::<char>::empty());
    } else {
        let b0 = b.drop_last();
        assert(!b0.contains(sep)) by {
            if b0.contains(sep) {
                let k = choose|k: int| 0 <= k < b0.len() && b0[k] == sep;
                assert(b[k] == sep);
            }
        }
        lemma_split_on_append(a, b0, sep);
        assert((a + seq![sep] + b).drop_last() =~= a + seq![sep] + b0);
        assert(b.last() != sep);
        assert(b0.push(b.last()) =~= b);
        assert(split_on(a, sep).push(b0).update(split_on(a, sep).len() as int, b0.push(b.last()))
            =~= split_on(a, sep).push(b));
        assert(b0.push(b.last()) =~= b);
    }
}

/// Splitting a name joined from segments without `/` gives the segments back.
pub proof fn lemma_split_join(segs: Seq<Seq<char>>)
    requires
        segs.len() >= 1,
        forall|i: int| 0 <= i < segs.len() ==> !(#[trigger] segs[i]).contains('/'),
    ensures
        split_on(join_segments(segs), '/') == segs,
    decreases segs.len(),
{
    if segs.len() == 1 {
        lemma_split_on_no_sep(segs[0], '/');
        assert(seq![segs[0]] =~= segs);
    } else {
        let init = segs.drop_last();
        assert forall|i: int| 0 <= i < init.len() implies !(#[trigger] init[i]).contains('/') by {
            assert(init[i] == segs[i]);
        }
        lemma_split_join(init);
        assert(!segs.last().contains('/'));
        lemma_split_on_append(join_segments(init), segs.last(), '/');
        assert(init.push(segs.last()) =~= segs);
    }
}

/// A name made of accepted segments (without `/`) is accepted, and its file
/// lies at the path made of those segments under the base, the last one with
/// `.nix` added; so every name that the walk lists leads back to its file.
pub proof fn lemma_group_path_of_segments(base: Seq<char>, segs: Seq<Seq<char>>)
    requires
        segs.len() >= 1,
        forall|i: int| 0 <= i < segs.len() ==> valid_segment(#[trigger] segs[i]),
        forall|i: int| 0 <= i < segs.len() ==> !(#[trigger] segs[i]).contains('/'),
    ensures
        group_path_result(base, join_segments(segs)) == Ok::<Seq<char>, ShvlFault>(
            push_all(base, file_segments(segs)),
        ),
{
    let name = join_segments(segs);
    lemma_split_join(segs);
    lemma_segments_fault_none(name, segs);
    lemma_join_ends(segs);
}

proof fn lemma_join_ends(segs: Seq<Seq<char>>)
    requires
        segs.len() >= 1,
        forall|i: int| 0 <= i < segs.len() ==> valid_segment(#[trigger] segs[i]),
    ensures
        join_segments(segs).len() > 0,
        join_segments(segs)[0] == segs[0][0],
        join_segments(segs).last() == segs.last().last(),
    decreases segs.len(),
{
    assert(valid_segment(segs[0]));
    assert(valid_segment(segs.last()));
    if segs.len() > 1 {
        let init = segs.drop_last();
        assert forall|i: int| 0 <= i < init.len() implies valid_segment(#[trigger] init[i]) by {
            assert(init[i] == segs[i]);
        }
        lemma_join_ends(init);
    }
}

proof fn lemma_push_all_split(p: Seq<char>, s: Seq<Seq<char>>, k: int)
    requires
        0 <= k <= s.len(),
    ensures
        push_all(p, s) == push_all(push_all(p, s.take(k)), s.skip(k)),
    decreases s.len(),
{
    if k == s.len() {
        assert(s.take(k) =~= s);
        assert(s.skip(k) =~= Seq::<Seq<char>>::empty());
    } else {
        lemma_push_all_split(p, s.drop_last(), k);
        assert(s.drop_last().take(k) =~= s.take(k));
        assert(s.skip(k).drop_last() =~= s.drop_last().skip(k));
        assert(s.skip(k).last() == s.last());
    }
}

proof fn lemma_push_all_grows(p: Seq<char>, s: Seq<Seq<char>>)
    requires
        forall|i: int| 0 <= i < s.len() ==> (#[trigger] s[i]).len() > 0,
    ensures
        push_all(p, s).len() >= p.len() + s.len(),
    decreases s.len(),
{
    if s.len() > 0 {
        assert forall|i: int| 0 <= i < s.drop_last().len() implies (#[trigger] s.drop_last()[i]).len() > 0 by {
            assert(s.drop_last()[i] == s[i]);
        }
        lemma_push_all_grows(p, s.drop_last());
        assert(s.last() == s[s.len() - 1]);
    }
}

/// Every directory that removing a group may prune lies on the way from the
/// base to the group's file: it is below the base (longer than it, with the
/// base as a prefix), it is a prefix of the file's path, and each one is
/// below the next (the deepest comes first).
pub proof fn lemma_prune_dirs_on_the_way(base: Seq<char>, group: Seq<char>)
    requires
        name_check(group) is Ok,
    ensures
        forall|j: int|
            0 <= j < prune_dirs(base, group).len() ==> {
                let d = #[trigger] prune_dirs(base, group)[j];
                &&& d.len() > base.len()
                &&& d.take(base.len() as int) == base
                &&& d.len() <= group_file_path(base, group).len()
                &&& group_file_path(base, group).take(d.len() as int) == d
            },
        forall|j: int|
            0 <= j < prune_dirs(base, group).len() - 1 ==> {
                let d = #[trigger] prune_dirs(base, group)[j];
                let up = prune_dirs(base, group)[j + 1];
                &&& up.len() < d.len()
                &&& d.take(up.len() as int) == up
            },
{
    let segs = split_on(group, '/');
    let n = segs.len();
    lemma_split_on_nonempty(group, '/');
    lemma_name_check_is_naming_rules(group);
    let fsegs = file_segments(segs);
    assert forall|i: int| 0 <= i < n implies (#[trigger] segs[i]).len() > 0 by {
        assert(valid_segment(segs[i]));
    }
    assert forall|i: int| 0 <= i < n implies (#[trigger] fsegs[i]).len() > 0 by {
        assert(valid_segment(segs[i]));
    }
    assert forall|j: int| 0 <= j < prune_dirs(base, group).len() implies {
        let d = #[trigger] prune_dirs(base, group)[j];
        &&& d.len() > base.len()
        &&& d.take(base.len() as int) == base
        &&& d.len() <= group_file_path(base, group).len()
        &&& group_file_path(base, group).take(d.len() as int) == d
    } by {
        let k = n - 1 - j;
        let d = push_all(base, segs.take(k));
        assert(prune_dirs(base, group)[j] == d);
        assert(fsegs.take(k) =~= segs.take(k));
        assert forall|i: int| 0 <= i < segs.take(k).len() implies (#[trigger] segs.take(k)[i]).len() > 0 by {
            assert(segs.take(k)[i] == segs[i]);
        }
        lemma_push_all_grows(base, segs.take(k));
        lemma_push_all_prefix(base, segs.take(k));
        lemma_push_all_split(base, fsegs, k);
        lemma_push_all_prefix(d, fsegs.skip(k));
    }
    assert forall|j: int| 0 <= j < prune_dirs(base, group).len() - 1 implies {
        let d = #[trigger] prune_dirs(base, group)[j];
        let up = prune_dirs(base, group)[j + 1];
        &&& up.len() < d.len()
        &&& d.take(up.len() as int) == up
    } by {
        let k = n - 1 - j;
        let d = push_all(base, segs.take(k));
        let up = push_all(base, segs.take(k - 1));
        assert(prune_dirs(base, group)[j] == d);
        assert(prune_dirs(base, group)[j + 1] == up);
        lemma_push_all_take(base, segs, k - 1);
        lemma_path_push_prefix(up, segs[k - 1]);
        assert(segs[k - 1].len() > 0);
    }
}

/// Exactly the characters U+0000 to U+001F and U+007F to U+009F are control
/// characters (Unicode category Cc, what `char::is_control` tests); every
/// other character, letters, digits and punctuation included, is not.
pub proof fn lemma_control_characters_exactly(c: char)
    ensures
        is_control(c) <==> ((c as int) < 0x20 || (0x7f <= (c as int) && (c as int) < 0xa0)),
        ('0' <= c && c <= '9') || ('a' <= c && c <= 'z') || ('A' <= c && c <= 'Z') || c == '-'
            || c == '_' || c == '.' || c == ' ' ==> !is_control(c),
{
}

/// A character that may stand in a plain group name: an ASCII letter or digit,
/// `-`, `_` or `.`.
pub open spec fn plain_char(c: char) -> bool {
    ('0' <= c && c <= '9') || ('a' <= c && c <= 'z') || ('A' <= c && c <= 'Z') || c == '-' || c
        == '_' || c == '.'
}

/// A name made of non-empty segments of letters, digits, `-`, `_` and `.`,
/// none starting with `.`, joined by `/`, is accepted: the naming rules refuse
/// nothing else about them.
pub proof fn lemma_plain_names_accepted(segs: Seq<Seq<char>>)
    requires
        segs.len() >= 1,
        forall|i: int|
            0 <= i < segs.len() ==> (#[trigger] segs[i]).len() > 0 && segs[i][0] != '.',
        forall|i: int, k: int|
            0 <= i < segs.len() && 0 <= k < segs[i].len() ==> plain_char(#[trigger] segs[i][k]),
    ensures
        name_check(join_segments(segs)) is Ok,
{
    assert forall|i: int| 0 <= i < segs.len() implies valid_segment(#[trigger] segs[i]) && !segs[i].contains('/') by {
        let seg = segs[i];
        assert forall|k: int| 0 <= k < seg.len() implies !is_control(#[trigger] seg[k]) by {
            assert(plain_char(segs[i][k]));
        }
        if seg.contains('\\') {
            let k = choose|k: int| 0 <= k < seg.len() && seg[k] == '\\';
            assert(plain_char(segs[i][k]));
        }
        if seg.contains('/') {
            let k = choose|k: int| 0 <= k < seg.len() && seg[k] == '/';
            assert(plain_char(segs[i][k]));
        }
        assert(seg != seq!['.']) by {
            if seg == seq!['.'] {
                assert(seg[0] == '.');
            }
        }
        assert(seg != seq!['.', '.']) by {
            if seg == seq!['.', '.'] {
                assert(seg[0] == '.');
            }
        }
    }
    lemma_group_path_of_segments(Seq::empty(), segs);
}

/// The file `stem.nix` (with a non-empty stem that does not start with `.`)
/// is the group named by the whole stem under `prefix`: only the `.nix`
/// extension is taken off, so dots inside the stem stay in the name.
pub proof fn lemma_nix_file_is_its_stem(prefix: Seq<char>, stem: Seq<char>)
    requires
        stem.len() > 0,
        stem[0] != '.',
    ensures
        entry_plan(prefix, stem + nix_ext(), false) == EntryPlan::Group(join_name(prefix, stem)),
        join_name(prefix, stem) == (if prefix.len() == 0 {
            stem
        } else {
            prefix + seq!['/'] + stem
        }),
{
    let f = stem + nix_ext();
    assert(f[0] == stem[0]);
    assert(f.skip(f.len() - 4) =~= nix_ext());
    assert(f.take(f.len() - 4) =~= stem);
}

/// A file is a group only when its name ends in `.nix`, and hidden entries
/// (whose names start with `.`) are never listed or walked.
pub proof fn lemma_entries_that_are_not_groups(prefix: Seq<char>, file_name: Seq<char>, is_dir: bool)
    ensures
        file_name.len() > 0 && file_name[0] == '.' ==> entry_plan(prefix, file_name, is_dir)
            == EntryPlan::Skip,
        entry_plan(prefix, file_name, is_dir) matches EntryPlan::Group(_) ==> !is_dir
            && file_name.len() > 4 && file_name.skip(file_name.len() - 4) == nix_ext(),
{
}

/// Removing a group may prune exactly the directories between its file and the
/// base: one for each proper, non-empty prefix of its segments, so a group
/// `a/b/c` lists `base/a/b` and `base/a`, and a group at the top lists none.
pub proof fn lemma_prune_dirs_complete(base: Seq<char>, group: Seq<char>)
    ensures
        prune_dirs(base, group).len() + 1 == split_on(group, '/').len(),
        forall|k: int|
            1 <= k < split_on(group, '/').len() ==> prune_dirs(base, group).contains(
                #[trigger] push_all(base, split_on(group, '/').take(k)),
            ),
{
    let segs = split_on(group, '/');
    lemma_split_on_nonempty(group, '/');
    assert forall|k: int|
        1 <= k < segs.len() implies prune_dirs(base, group).contains(
        #[trigger] push_all(base, segs.take(k)),
    ) by {
        let j = segs.len() - 1 - k;
        assert(prune_dirs(base, group)[j] == push_all(base, segs.take(k)));
    }
}

} // verus!
