//! The list of workspaces: the first one is the default.
use vstd::prelude::*;
use vstd::string::*;

use crate::interact::{str_view, text_view};
use crate::proto::{ErrorView, RpcError, error_view};
use crate::settings::copy_text;
use crate::text::same;

verus! {

/// A workspace: its path, and the last part of the path, which it goes by.
#[derive(Debug, PartialEq)]
pub struct Workspace {
    pub path: String,
    pub name: Option<String>,
}

/// The model of a workspace.
pub struct WsView {
    pub path: Seq<char>,
    pub name: Option<Seq<char>>,
}

impl View for Workspace {
    type V = WsView;

    open spec fn view(&self) -> WsView {
        WsView { path: self.path@, name: text_view(self.name) }
    }
}

impl Workspace {
    /// A second one that is the same as this one.
    pub fn copy(&self) -> (r: Workspace)
        ensures
            r == *self,
    {
        Workspace { path: self.path.clone(), name: copy_text(&self.name) }
    }
}

pub open spec fn ws_views(v: Seq<Workspace>) -> Seq<WsView> {
    v.map_values(|w: Workspace| w@)
}

/// The place of the first workspace of a name; their number where there is
/// none.
pub open spec fn ws_place(all: Seq<WsView>, name: Seq<char>) -> int
    decreases all.len(),
{
    if all.len() == 0 || all[0].name == Some(name) {
        0
    } else {
        1 + ws_place(all.drop_first(), name)
    }
}

/// The first workspace of a name.
pub open spec fn ws_named(all: Seq<WsView>, name: Seq<char>) -> Option<WsView> {
    let k = ws_place(all, name);
    if k < all.len() {
        Some(all[k])
    } else {
        None
    }
}

pub proof fn lemma_ws_place(all: Seq<WsView>, name: Seq<char>)
    ensures
        0 <= ws_place(all, name) <= all.len(),
        ws_place(all, name) < all.len() ==> all[ws_place(all, name)].name == Some(name),
        forall|i: int| 0 <= i < ws_place(all, name) ==> (#[trigger] all[i]).name != Some(name),
    decreases all.len(),
{
    if all.len() > 0 && all[0].name != Some(name) {
        let rest = all.drop_first();
        lemma_ws_place(rest, name);
        assert forall|i: int| 0 <= i < ws_place(all, name) implies (#[trigger] all[i]).name != Some(
            name,
        ) by {
            if i > 0 {
                assert(rest[i - 1] == all[i]);
            }
        }
    }
}

proof fn lemma_ws_place_is(all: Seq<WsView>, name: Seq<char>, k: int)
    requires
        0 <= k <= all.len(),
        k < all.len() ==> all[k].name == Some(name),
        forall|i: int| 0 <= i < k ==> (#[trigger] all[i]).name != Some(name),
    ensures
        ws_place(all, name) == k,
{
    lemma_ws_place(all, name);
    let p = ws_place(all, name);
    if p < k {
        assert(all[p].name != Some(name));
    } else if k < p {
        assert(all[k].name != Some(name));
    }
}

/// The workspaces without those under a path.
pub open spec fn without_path(all: Seq<WsView>, path: Seq<char>) -> Seq<WsView>
    decreases all.len(),
{
    if all.len() == 0 {
        Seq::empty()
    } else if all.last().path == path {
        without_path(all.drop_last(), path)
    } else {
        without_path(all.drop_last(), path).push(all.last())
    }
}

/// Where the first workspace of a name stands.
pub fn workspace_index(list: &Vec<Workspace>, name: &str) -> (r: Option<usize>)
    ensures
        match r {
            Some(k) => k < list.len() && ws_place(ws_views(list@), name@) == k,
            None => ws_place(ws_views(list@), name@) == list.len(),
        },
{
    let ghost all = ws_views(list@);
    let mut i: usize = 0;
    while i < list.len()
        invariant
            i <= list.len(),
            all == ws_views(list@),
            forall|j: int| 0 <= j < i ==> (#[trigger] all[j]).name != Some(name@),
        decreases list.len() - i,
    {
        assert(all[i as int] == list@[i as int]@);
        let hit = match &list[i].name {
            Some(n) => same(n.as_str(), name),
            None => false,
        };
        if hit {
            proof {
                lemma_ws_place_is(all, name@, i as int);
            }
            return Some(i);
        }
        i = i + 1;
    }
    proof {
        lemma_ws_place_is(all, name@, i as int);
    }
    None
}

fn drop_path(list: &mut Vec<Workspace>, path: &str)
    ensures
        ws_views(final(list)@) == without_path(ws_views(old(list)@), path@),
{
    let ghost before = ws_views(list@);
    let n: usize = list.len();
    let mut done: usize = 0;
    let mut i: usize = 0;
    proof {
        assert(before.take(0) =~= Seq::empty());
        assert(without_path(before.take(0), path@) + before.skip(0) =~= before);
    }
    while done < n
        invariant
            i <= done <= n,
            before.len() == n,
            i == without_path(before.take(done as int), path@).len(),
            ws_views(list@) == without_path(before.take(done as int), path@) + before.skip(
                done as int,
            ),
        decreases n - done,
    {
        let ghost now = list@;
        let ghost head = without_path(before.take(done as int), path@);
        proof {
            assert(before.take(done + 1).drop_last() =~= before.take(done as int));
            assert(before.take(done + 1).last() == before[done as int]);
            assert(ws_views(now).len() == now.len());
            assert(before.skip(done as int).len() == n - done);
            assert(ws_views(now)[i as int] == before[done as int]);
            assert(now[i as int]@ == before[done as int]);
        }
        if same(list[i].path.as_str(), path) {
            let gone = list.remove(i);
            proof {
                assert(ws_views(list@) =~= ws_views(now).remove(i as int));
                assert((head + before.skip(done as int)).remove(i as int) =~= head + before.skip(
                    done + 1,
                ));
            }
        } else {
            proof {
                assert(head + before.skip(done as int) =~= head.push(before[done as int])
                    + before.skip(done + 1));
            }
            i = i + 1;
        }
        done = done + 1;
    }
    proof {
        assert(before.take(n as int) =~= before);
        assert(without_path(before, path@) + before.skip(n as int) =~= without_path(before, path@));
    }
}

/// A directory that may become a workspace, and whether it is there.
#[derive(Debug, PartialEq)]
pub struct Candidate {
    pub workspace: Workspace,
    pub is_dir: bool,
}

/// The workspaces among candidates that are there.
pub open spec fn present(all: Seq<Candidate>) -> Seq<WsView>
    decreases all.len(),
{
    if all.len() == 0 {
        Seq::empty()
    } else if all.last().is_dir {
        present(all.drop_last()).push(all.last().workspace@)
    } else {
        present(all.drop_last())
    }
}

/// Whether a path is among workspaces.
pub open spec fn has_path(all: Seq<WsView>, path: Seq<char>) -> bool {
    exists|i: int| 0 <= i < all.len() && (#[trigger] all[i]).path == path
}

/// The workspaces to begin with. Those that are registered count, in their
/// order, as far as they are there; the launch directory comes first unless it
/// is among them. Where none is registered, those of an older list follow the
/// launch directory.
pub open spec fn first_list(
    launch: WsView,
    registered: Seq<Candidate>,
    older: Seq<Candidate>,
) -> Seq<WsView> {
    if registered.len() == 0 {
        seq![launch] + present(older)
    } else if has_path(present(registered), launch.path) {
        present(registered)
    } else {
        seq![launch] + present(registered)
    }
}

fn keep_present(all: &Vec<Candidate>, out: &mut Vec<Workspace>)
    ensures
        ws_views(final(out)@) == ws_views(old(out)@) + present(all@),
{
    let ghost before = ws_views(out@);
    let mut i: usize = 0;
    proof {
        assert(all@.take(0) =~= Seq::empty());
        assert(before + present(all@.take(0)) =~= before);
    }
    while i < all.len()
        invariant
            i <= all.len(),
            ws_views(out@) == before + present(all@.take(i as int)),
        decreases all.len() - i,
    {
        proof {
            assert(all@.take(i + 1).drop_last() =~= all@.take(i as int));
            assert(all@.take(i + 1).last() == all@[i as int]);
        }
        if all[i].is_dir {
            let w = all[i].workspace.copy();
            proof {
                assert(ws_views(out@.push(w)) =~= ws_views(out@).push(w@));
                assert((before + present(all@.take(i as int))).push(w@) =~= before + present(
                    all@.take(i as int),
                ).push(w@));
            }
            out.push(w);
        }
        i = i + 1;
    }
    assert(all@.take(all@.len() as int) =~= all@);
}

/// The workspaces to begin with, and whether they are to be registered: they
/// come from an older list that names any.
pub fn first_workspaces(
    launch: &Workspace,
    registered: &Vec<Candidate>,
    older: &Vec<Candidate>,
) -> (r: (Vec<Workspace>, bool))
    ensures
        ws_views(r.0@) == first_list(launch@, registered@, older@),
        r.1 == (registered@.len() == 0 && r.0@.len() > 1),
        r.0@.len() > 0,
{
    let mut list: Vec<Workspace> = Vec::new();
    if registered.len() == 0 {
        list.push(launch.copy());
        assert(ws_views(list@) =~= seq![launch@]);
        keep_present(older, &mut list);
        assert(ws_views(list@).len() == list@.len());
        let register = list.len() > 1;
        return (list, register);
    }
    keep_present(registered, &mut list);
    assert(ws_views(Seq::<Workspace>::empty()) + present(registered@) =~= present(registered@));
    assert(ws_views(Seq::<Workspace>::empty()) =~= Seq::empty());
    let ghost kept = ws_views(list@);
    let mut found = false;
    let mut i: usize = 0;
    while i < list.len()
        invariant
            i <= list.len(),
            kept == ws_views(list@),
            found == exists|k: int| 0 <= k < i && (#[trigger] kept[k]).path == launch@.path,
        decreases list.len() - i,
    {
        assert(kept[i as int] == list@[i as int]@);
        if same(list[i].path.as_str(), launch.path.as_str()) {
            found = true;
        }
        i = i + 1;
    }
    if !found {
        let ghost now = list@;
        list.insert(0, launch.copy());
        proof {
            assert(ws_views(list@) =~= seq![launch@] + ws_views(now));
        }
    }
    assert(ws_views(list@).len() == list@.len());
    (list, false)
}

/// What is wrong with adding a workspace.
pub open spec fn add_fault(
    all: Seq<WsView>,
    name: Option<Seq<char>>,
    is_dir: bool,
) -> Option<ErrorView> {
    if !is_dir {
        Some(error_view("bad-request"@, "目录不存在"@))
    } else {
        match name {
            None => Some(error_view("bad-request"@, "路径无名"@)),
            Some(n) => if ws_named(all, n) is Some {
                Some(error_view("bad-request"@, "同名工作区已存在"@))
            } else {
                None
            },
        }
    }
}

/// Adds a workspace behind the others; it must be there, have a name, and no
/// other may have it.
pub fn add_to(list: &mut Vec<Workspace>, workspace: Workspace, is_dir: bool) -> (r: Result<
    String,
    RpcError,
>)
    ensures
        match add_fault(ws_views(old(list)@), workspace@.name, is_dir) {
            Some(e) => r is Err && r->Err_0@ == e && final(list)@ == old(list)@,
            None => r is Ok && Some(r->Ok_0@) == workspace@.name && ws_views(final(list)@)
                == ws_views(old(list)@).push(workspace@),
        },
{
    if !is_dir {
        return Err(RpcError::bad_request("目录不存在"));
    }
    let name: String = match &workspace.name {
        Some(n) => n.clone(),
        None => {
            return Err(RpcError::bad_request("路径无名"));
        },
    };
    if workspace_index(list, name.as_str()).is_some() {
        return Err(RpcError::bad_request("同名工作区已存在"));
    }
    let ghost before = list@;
    list.push(workspace);
    assert(ws_views(list@) =~= ws_views(before).push(workspace@));
    Ok(name)
}

/// Where a workspace is put: before the one of a name, or at the end where
/// there is no such other one.
pub open spec fn reordered(all: Seq<WsView>, name: Seq<char>, before: Option<Seq<char>>) -> Seq<
    WsView,
> {
    let ws = ws_named(all, name)->0;
    let rest = without_path(all, ws.path);
    let at = match before {
        Some(b) => match ws_named(all, b) {
            Some(w) => path_place(rest, w.path),
            None => rest.len() as int,
        },
        None => rest.len() as int,
    };
    rest.insert(at, ws)
}

/// The place of the first workspace under a path; their number where there is
/// none.
pub open spec fn path_place(all: Seq<WsView>, path: Seq<char>) -> int
    decreases all.len(),
{
    if all.len() == 0 || all[0].path == path {
        0
    } else {
        1 + path_place(all.drop_first(), path)
    }
}

proof fn lemma_path_place_is(all: Seq<WsView>, path: Seq<char>, k: int)
    requires
        0 <= k <= all.len(),
        k < all.len() ==> all[k].path == path,
        forall|i: int| 0 <= i < k ==> (#[trigger] all[i]).path != path,
    ensures
        path_place(all, path) == k,
    decreases k,
{
    if k > 0 {
        assert(all[0].path != path);
        let rest = all.drop_first();
        assert forall|i: int| 0 <= i < k - 1 implies (#[trigger] rest[i]).path != path by {
            assert(rest[i] == all[i + 1]);
        }
        lemma_path_place_is(rest, path, k - 1);
    }
}

fn find_path(list: &Vec<Workspace>, path: &str) -> (r: usize)
    ensures
        r == path_place(ws_views(list@), path@),
        r <= list.len(),
{
    let ghost all = ws_views(list@);
    let mut i: usize = 0;
    while i < list.len() && !same(list[i].path.as_str(), path)
        invariant
            i <= list.len(),
            all == ws_views(list@),
            forall|j: int| 0 <= j < i ==> (#[trigger] all[j]).path != path@,
        decreases list.len() - i,
    {
        assert(all[i as int] == list@[i as int]@);
        i = i + 1;
    }
    proof {
        if i < list.len() {
            assert(all[i as int] == list@[i as int]@);
        }
        lemma_path_place_is(all, path@, i as int);
    }
    i
}

/// Moves a workspace before another, or to the end.
pub fn reorder(list: &mut Vec<Workspace>, name: &str, before: Option<&str>) -> (r: Result<
    (),
    RpcError,
>)
    ensures
        if ws_named(ws_views(old(list)@), name@) is None {
            r is Err && r->Err_0@ == error_view("bad-request"@, "未知工作区"@) && final(list)@
                == old(list)@
        } else {
            r is Ok && ws_views(final(list)@) == reordered(
                ws_views(old(list)@),
                name@,
                str_view(before),
            )
        },
{
    let ghost all = ws_views(list@);
    let k: usize = match workspace_index(list, name) {
        Some(k) => k,
        None => {
            return Err(RpcError::bad_request("未知工作区"));
        },
    };
    let ws = list[k].copy();
    assert(ws@ == all[k as int]);
    let anchor: Option<String> = match before {
        Some(b) => match workspace_index(list, b) {
            Some(j) => {
                assert(list@[j as int]@ == all[j as int]);
                Some(list[j].path.clone())
            },
            None => None,
        },
        None => None,
    };
    drop_path(list, ws.path.as_str());
    let ghost rest = ws_views(list@);
    assert(rest.len() == list@.len());
    let at: usize = match &anchor {
        Some(p) => find_path(list, p.as_str()),
        None => list.len(),
    };
    let ghost now = list@;
    list.insert(at, ws);
    assert(ws_views(list@) =~= rest.insert(at as int, ws@));
    Ok(())
}

/// What is wrong with giving up a workspace.
pub open spec fn remove_fault(all: Seq<WsView>, name: Seq<char>, default: WsView) -> Option<
    ErrorView,
> {
    match ws_named(all, name) {
        None => Some(error_view("bad-request"@, "未知工作区"@)),
        Some(ws) => if ws.path == default.path {
            Some(error_view("bad-request"@, "默认工作区不可移除"@))
        } else {
            None
        },
    }
}

/// Gives up a workspace; the default one stays. The result is its path.
pub fn remove_from(list: &mut Vec<Workspace>, name: &str, default: &Workspace) -> (r: Result<
    String,
    RpcError,
>)
    ensures
        match remove_fault(ws_views(old(list)@), name@, default@) {
            Some(e) => r is Err && r->Err_0@ == e && final(list)@ == old(list)@,
            None => {
                &&& r is Ok
                &&& r->Ok_0@ == ws_named(ws_views(old(list)@), name@)->0.path
                &&& ws_views(final(list)@) == without_path(ws_views(old(list)@), r->Ok_0@)
            },
        },
{
    let ghost all = ws_views(list@);
    let k: usize = match workspace_index(list, name) {
        Some(k) => k,
        None => {
            return Err(RpcError::bad_request("未知工作区"));
        },
    };
    assert(all[k as int] == list@[k as int]@);
    let path = list[k].path.clone();
    if same(path.as_str(), default.path.as_str()) {
        return Err(RpcError::bad_request("默认工作区不可移除"));
    }
    drop_path(list, path.as_str());
    Ok(path)
}

/// No two workspaces have the same path.
pub open spec fn paths_differ(all: Seq<WsView>) -> bool {
    forall|i: int, j: int|
        0 <= i < j < all.len() ==> (#[trigger] all[i]).path != (#[trigger] all[j]).path
}

proof fn lemma_without_path_one(all: Seq<WsView>, k: int)
    requires
        paths_differ(all),
        0 <= k < all.len(),
    ensures
        without_path(all, all[k].path) == all.remove(k),
    decreases all.len(),
{
    let path = all[k].path;
    let rest = all.drop_last();
    if k == all.len() - 1 {
        lemma_without_path_none(rest, path);
        assert(all.remove(k) =~= rest);
    } else {
        assert(all[k].path != all[all.len() - 1].path);
        assert forall|i: int, j: int| 0 <= i < j < rest.len() implies (#[trigger] rest[i]).path != (
        #[trigger] rest[j]).path by {
            assert(rest[i] == all[i] && rest[j] == all[j]);
        }
        lemma_without_path_one(rest, k);
        assert(all.remove(k) =~= rest.remove(k).push(all.last()));
    }
}

proof fn lemma_without_path_none(all: Seq<WsView>, path: Seq<char>)
    requires
        forall|i: int| 0 <= i < all.len() ==> (#[trigger] all[i]).path != path,
    ensures
        without_path(all, path) == all,
    decreases all.len(),
{
    if all.len() > 0 {
        assert(all[all.len() - 1].path != path);
        lemma_without_path_none(all.drop_last(), path);
        assert(all.drop_last().push(all.last()) =~= all);
    } else {
        assert(without_path(all, path) =~= all);
    }
}

/// Moving a workspace neither loses nor adds any.
pub proof fn law_reorder_keeps_all(all: Seq<WsView>, name: Seq<char>, before: Option<Seq<char>>)
    requires
        paths_differ(all),
        ws_named(all, name) is Some,
    ensures
        reordered(all, name, before).to_multiset() == all.to_multiset(),
        before is None ==> reordered(all, name, before).last() == ws_named(all, name)->0,
{
    lemma_ws_place(all, name);
    let k = ws_place(all, name);
    let ws = all[k];
    lemma_without_path_one(all, k);
    let rest = all.remove(k);
    let at = match before {
        Some(b) => match ws_named(all, b) {
            Some(w) => path_place(rest, w.path),
            None => rest.len() as int,
        },
        None => rest.len() as int,
    };
    lemma_path_place_bound(rest, if before is Some && ws_named(all, before->0) is Some {
        ws_named(all, before->0)->0.path
    } else {
        Seq::empty()
    });
    vstd::seq_lib::to_multiset_insert(rest, at, ws);
    assert(rest.insert(k, ws) =~= all);
    vstd::seq_lib::to_multiset_insert(rest, k, ws);
}

proof fn lemma_path_place_bound(all: Seq<WsView>, path: Seq<char>)
    ensures
        0 <= path_place(all, path) <= all.len(),
    decreases all.len(),
{
    if all.len() > 0 && all[0].path != path {
        lemma_path_place_bound(all.drop_first(), path);
    }
}

/// Giving up a workspace leaves the default where it is: at the head of the
/// list.
pub proof fn law_default_stays(all: Seq<WsView>, name: Seq<char>)
    requires
        all.len() > 0,
        remove_fault(all, name, all[0]) is None,
    ensures
        without_path(all, ws_named(all, name)->0.path).len() > 0,
        without_path(all, ws_named(all, name)->0.path)[0] == all[0],
{
    let path = ws_named(all, name)->0.path;
    lemma_head_stays(all, path);
}

proof fn lemma_head_stays(all: Seq<WsView>, path: Seq<char>)
    requires
        all.len() > 0,
        all[0].path != path,
    ensures
        without_path(all, path).len() > 0,
        without_path(all, path)[0] == all[0],
    decreases all.len(),
{
    if all.len() > 1 {
        lemma_head_stays(all.drop_last(), path);
    } else {
        assert(all.drop_last() =~= Seq::empty());
        assert(without_path(all.drop_last(), path) =~= Seq::empty());
        assert(without_path(all, path) =~= seq![all[0]]);
    }
}

/// A workspace is found by its name exactly where one has it, and it is the first that
/// has it.
pub proof fn law_workspace_is_found_by_name(all: Seq<WsView>, name: Seq<char>)
    ensures
        ws_named(all, name) is Some <==> exists|i: int|
            0 <= i < all.len() && (#[trigger] all[i]).name == Some(name),
        forall|i: int|
            0 <= i < all.len() && all[i].name == Some(name) && (forall|k: int|
                0 <= k < i ==> (#[trigger] all[k]).name != Some(name)) ==> ws_named(all, name)
                == Some(#[trigger] all[i]),
{
    lemma_ws_place(all, name);
    let k = ws_place(all, name);
    assert forall|i: int|
        0 <= i < all.len() && all[i].name == Some(name) && (forall|k: int|
            0 <= k < i ==> (#[trigger] all[k]).name != Some(name)) implies ws_named(all, name)
        == Some(#[trigger] all[i]) by {
        assert(k <= i);
        assert(k == i || all[k].name != Some(name));
    }
}

/// Without a path all others are left, in order.
pub proof fn law_without_path_keeps_others(all: Seq<WsView>, path: Seq<char>)
    ensures
        without_path(all, path) == all.filter(|w: WsView| w.path != path),
{
    lemma_without_path(all, path, |w: WsView| w.path != path);
}

proof fn lemma_without_path(all: Seq<WsView>, path: Seq<char>, keep: spec_fn(WsView) -> bool)
    requires
        forall|w: WsView| #[trigger] keep(w) == (w.path != path),
    ensures
        without_path(all, path) == all.filter(keep),
    decreases all.len(),
{
    reveal(Seq::filter);
    if all.len() > 0 {
        lemma_without_path(all.drop_last(), path, keep);
        assert(keep(all.last()) == (all.last().path != path));
    } else {
        assert(without_path(all, path) =~= all.filter(keep));
    }
}

proof fn lemma_present(all: Seq<Candidate>, there: spec_fn(Candidate) -> bool)
    requires
        forall|c: Candidate| #[trigger] there(c) == c.is_dir,
    ensures
        present(all).len() == all.filter(there).len(),
        forall|i: int|
            0 <= i < present(all).len() ==> #[trigger] present(all)[i] == all.filter(
                there,
            )[i].workspace@,
    decreases all.len(),
{
    reveal(Seq::filter);
    if all.len() > 0 {
        lemma_present(all.drop_last(), there);
        assert(there(all.last()) == all.last().is_dir);
    }
}

/// The candidates that count at first: those that are registered, or those of an older
/// list where none is.
pub open spec fn counted(registered: Seq<Candidate>, older: Seq<Candidate>) -> Seq<Candidate> {
    if registered.len() > 0 {
        registered
    } else {
        older
    }
}

/// The candidates that are there.
pub open spec fn found_there(all: Seq<Candidate>) -> Seq<Candidate> {
    all.filter(|c: Candidate| c.is_dir)
}

/// The workspaces to begin with: the launch directory is always among them, and first
/// unless it is registered; the registered ones that are there all count, in their
/// order; those of an older list count only where none is registered.
pub proof fn law_first_workspaces(
    launch: WsView,
    registered: Seq<Candidate>,
    older: Seq<Candidate>,
)
    ensures
        ({
            let all = first_list(launch, registered, older);
            let there = found_there(counted(registered, older));
            let at = all.len() - there.len();
            &&& has_path(all, launch.path)
            &&& at == 0 || (at == 1 && all[0] == launch)
            &&& registered.len() == 0 ==> at == 1
            &&& registered.len() > 0 ==> (at == 0 <==> exists|i: int|
                0 <= i < there.len() && (#[trigger] there[i]).workspace@.path == launch.path)
            &&& forall|i: int|
                0 <= i < there.len() ==> all[at + i] == (#[trigger] there[i]).workspace@
        }),
{
    let source = counted(registered, older);
    let there = found_there(source);
    lemma_present(source, |c: Candidate| c.is_dir);
    let all = first_list(launch, registered, older);
    let listed = present(source);
    assert(listed.len() == there.len());
    assert forall|i: int| 0 <= i < there.len() implies listed[i] == (
    #[trigger] there[i]).workspace@ by {}
    if has_path(listed, launch.path) {
        let i = choose|i: int| 0 <= i < listed.len() && (#[trigger] listed[i]).path == launch.path;
        assert(there[i].workspace@.path == launch.path);
        if registered.len() > 0 {
            assert(all[i].path == launch.path);
        } else {
            assert(all[0].path == launch.path);
        }
    } else {
        assert(all[0] == launch);
        assert forall|i: int| 0 <= i < there.len() implies (#[trigger] there[i]).workspace@.path
            != launch.path by {
            assert(listed[i].path != launch.path);
        }
    }
}

/// A workspace can be added exactly where it is a directory, has a name, and no other
/// has the name; it can be given up exactly where it is known and not the default one.
pub proof fn law_workspace_faults(
    all: Seq<WsView>,
    name: Option<Seq<char>>,
    is_dir: bool,
    known: Seq<char>,
    default: WsView,
)
    ensures
        add_fault(all, name, is_dir) is None <==> is_dir && name is Some && forall|i: int|
            0 <= i < all.len() ==> (#[trigger] all[i]).name != name,
        remove_fault(all, known, default) is None <==> (ws_named(all, known) matches Some(w)
            && w.path != default.path),
        add_fault(all, name, is_dir) matches Some(e) ==> e.code == "bad-request"@,
        remove_fault(all, known, default) matches Some(e) ==> e.code == "bad-request"@,
{
    if let Some(n) = name {
        law_workspace_is_found_by_name(all, n);
    }
}

proof fn lemma_path_place(all: Seq<WsView>, path: Seq<char>)
    ensures
        0 <= path_place(all, path) <= all.len(),
        path_place(all, path) < all.len() ==> all[path_place(all, path)].path == path,
        forall|i: int| 0 <= i < path_place(all, path) ==> (#[trigger] all[i]).path != path,
    decreases all.len(),
{
    if all.len() > 0 && all[0].path != path {
        let rest = all.drop_first();
        lemma_path_place(rest, path);
        assert forall|i: int| 0 <= i < path_place(all, path) implies (#[trigger] all[i]).path
            != path by {
            if i > 0 {
                assert(all[i] == rest[i - 1]);
            }
        }
    }
}

/// Moving a workspace before another puts it right before that one; where there is no
/// such other one it comes last. All others keep their order.
pub proof fn law_moved_workspace_stands_before(
    all: Seq<WsView>,
    name: Seq<char>,
    before: Option<Seq<char>>,
)
    requires
        paths_differ(all),
        ws_named(all, name) is Some,
    ensures
        ({
            let ws = ws_named(all, name)->0;
            let after = reordered(all, name, before);
            let other = match before {
                Some(b) => ws_named(all, b),
                None => None,
            };
            &&& (other matches Some(o) && o.path != ws.path) ==> exists|i: int|
                0 <= i < after.len() - 1 && #[trigger] after[i] == ws && after[i + 1] == other->0
            &&& !(other matches Some(o) && o.path != ws.path) ==> after.last() == ws
            &&& after.filter(|w: WsView| w.path != ws.path) == all.filter(
                |w: WsView| w.path != ws.path,
            )
        }),
{
    let ws = ws_named(all, name)->0;
    let keep = |w: WsView| w.path != ws.path;
    lemma_without_path(all, ws.path, keep);
    let rest = without_path(all, ws.path);
    let after = reordered(all, name, before);
    let at = match before {
        Some(b) => match ws_named(all, b) {
            Some(w) => path_place(rest, w.path),
            None => rest.len() as int,
        },
        None => rest.len() as int,
    };
    assert forall|i: int| 0 <= i < rest.len() implies (#[trigger] rest[i]).path != ws.path by {
        assert(rest.contains(rest[i]));
        crate::text::lemma_filter_contains(all, keep, rest[i]);
    }
    if before is Some && ws_named(all, before->0) is Some {
        let o = ws_named(all, before->0)->0;
        lemma_path_place(rest, o.path);
        lemma_ws_place(all, before->0);
        if o.path != ws.path {
            let k = ws_place(all, before->0);
            assert(all[k] == o);
            assert(all.contains(o));
            crate::text::lemma_filter_contains(all, keep, o);
            let j = choose|j: int| 0 <= j < rest.len() && rest[j] == o;
            assert(at <= j);
            assert(rest[at].path == o.path);
            assert(rest.contains(rest[at]));
            crate::text::lemma_filter_contains(all, keep, rest[at]);
            let m = choose|m: int| 0 <= m < all.len() && all[m] == rest[at];
            assert(m == k || m < k || k < m);
            assert(rest[at] == o);
            assert(after[at] == ws && after[at + 1] == o);
        } else if at < rest.len() {
            assert(rest[at].path != ws.path);
        }
    }
    lemma_put_in(rest, at, ws, keep);
}

proof fn lemma_put_in(rest: Seq<WsView>, at: int, ws: WsView, keep: spec_fn(WsView) -> bool)
    requires
        0 <= at <= rest.len(),
        !keep(ws),
        forall|i: int| 0 <= i < rest.len() ==> keep(#[trigger] rest[i]),
    ensures
        rest.insert(at, ws).filter(keep) == rest,
{
    let one = seq![ws];
    let a = rest.take(at);
    let b = rest.skip(at);
    assert(rest.insert(at, ws) =~= a + one + b);
    reveal_with_fuel(Seq::<_>::filter, 2);
    assert(one.drop_last() =~= Seq::empty());
    assert(one.last() == ws);
    assert(one.filter(keep) == one.drop_last().filter(keep));
    Seq::filter_distributes_over_add(a + one, b, keep);
    Seq::filter_distributes_over_add(a, one, keep);
    lemma_all_kept(a, keep);
    lemma_all_kept(b, keep);
    assert(a + Seq::<WsView>::empty() + b =~= rest);
}

proof fn lemma_all_kept(all: Seq<WsView>, keep: spec_fn(WsView) -> bool)
    requires
        forall|i: int| 0 <= i < all.len() ==> keep(#[trigger] all[i]),
    ensures
        all.filter(keep) == all,
    decreases all.len(),
{
    reveal(Seq::filter);
    if all.len() > 0 {
        let rest = all.drop_last();
        assert forall|i: int| 0 <= i < rest.len() implies keep(#[trigger] rest[i]) by {
            assert(rest[i] == all[i]);
        }
        lemma_all_kept(rest, keep);
        assert(keep(all[all.len() - 1]));
        assert(rest.push(all.last()) =~= all);
    }
}

} // verus!
