//! The todo store's semantic tree as rows, depth-first with each row's
//! depth, and the client view read back from such rows.

use vstd::prelude::*;

use crate::numbered_id;
use crate::parse_numbered_id;
use crate::text::{decimal, decimal_string, digit_char, digit_value, digits_value, is_digit, lemma_decimal_digits, push_chars, starts_with, str_eq};
use crate::todo::ids;
use crate::todo::{entries, Page, Todo, TodoEntry, TodoModel, TodoStore, TodoView};

verus! {

pub const ROLE_WINDOW: &'static str = "window";
pub const ROLE_PAGE: &'static str = "page";
pub const ROLE_NAVIGATION: &'static str = "navigation";
pub const ROLE_BUTTON: &'static str = "button";
pub const ROLE_TEXTBOX: &'static str = "textbox";
pub const ROLE_LIST: &'static str = "list";
pub const ROLE_LIST_ITEM: &'static str = "listitem";
pub const ROLE_SCROLL: &'static str = "scroll";
pub const ROLE_CHECKBOX: &'static str = "checkbox";
pub const ROLE_NOTE: &'static str = "note";
pub const ROLE_STATUS: &'static str = "status";

/// One node of a semantic tree in depth-first order; `depth` counts its
/// ancestors, so a node's children are the rows after it one level deeper.
#[derive(Debug)]
pub struct TreeRow {
    pub depth: usize,
    pub id: String,
    pub role: String,
    pub name: String,
    pub value: Option<String>,
    pub checked: Option<bool>,
    pub visible: bool,
}

/// A row as plain values.
pub struct RowView {
    pub depth: nat,
    pub id: Seq<char>,
    pub role: Seq<char>,
    pub name: Seq<char>,
    pub value: Option<Seq<char>>,
    pub checked: Option<bool>,
    pub visible: bool,
}

pub open spec fn opt_view(o: Option<String>) -> Option<Seq<char>> {
    match o {
        Some(s) => Some(s@),
        None => None,
    }
}

impl View for TreeRow {
    type V = RowView;

    open spec fn view(&self) -> RowView {
        RowView {
            depth: self.depth as nat,
            id: self.id@,
            role: self.role@,
            name: self.name@,
            value: opt_view(self.value),
            checked: self.checked,
            visible: self.visible,
        }
    }
}

pub open spec fn rows_view(v: Seq<TreeRow>) -> Seq<RowView> {
    Seq::new(v.len(), |i: int| v[i]@)
}

/// A visible row with no value and no checked state.
pub open spec fn plain(depth: nat, id: Seq<char>, role: Seq<char>, name: Seq<char>) -> RowView {
    RowView { depth, id, role, name, value: None, checked: None, visible: true }
}

pub open spec fn done_count(items: Seq<TodoEntry>) -> nat
    decreases items.len(),
{
    if items.len() == 0 {
        0
    } else {
        done_count(items.drop_last()) + if items.last().done {
            1nat
        } else {
            0nat
        }
    }
}

/// `No todos`, or `{n} todos, {done} done`.
pub open spec fn status_name(items: Seq<TodoEntry>) -> Seq<char> {
    if items.len() == 0 {
        "No todos"@
    } else {
        decimal(items.len()) + " todos, "@ + decimal(done_count(items)) + " done"@
    }
}

/// The row of one todo, then its checkbox and its delete button.
pub open spec fn item_rows(t: TodoEntry) -> Seq<RowView> {
    seq![
        RowView {
            depth: 4,
            id: ids::ITEM_PREFIX@ + decimal(t.id as nat),
            role: ROLE_LIST_ITEM@,
            name: t.title,
            value: None,
            checked: Some(t.done),
            visible: true,
        },
        RowView {
            depth: 5,
            id: ids::TOGGLE_PREFIX@ + decimal(t.id as nat),
            role: ROLE_CHECKBOX@,
            name: t.title,
            value: None,
            checked: Some(t.done),
            visible: true,
        },
        plain(5, ids::DELETE_PREFIX@ + decimal(t.id as nat), ROLE_BUTTON@, "Delete "@ + t.title),
    ]
}

pub open spec fn items_rows(items: Seq<TodoEntry>) -> Seq<RowView>
    decreases items.len(),
{
    if items.len() == 0 {
        Seq::empty()
    } else {
        items_rows(items.drop_last()) + item_rows(items.last())
    }
}

/// The todo page: the draft field, the add button, the list (or its empty
/// note) and the status line.
pub open spec fn todos_page_rows(m: TodoModel) -> Seq<RowView> {
    seq![
        plain(1, ids::PAGE_TODOS@, ROLE_PAGE@, "Todos"@),
        RowView {
            depth: 2,
            id: ids::INPUT@,
            role: ROLE_TEXTBOX@,
            name: "What needs doing?"@,
            value: Some(m.draft),
            checked: None,
            visible: true,
        },
        plain(2, ids::ADD@, ROLE_BUTTON@, "Add"@),
        plain(2, ids::LIST_SCROLL@, ROLE_SCROLL@, "Todo list"@),
        plain(3, ids::LIST@, ROLE_LIST@, "Todos"@),
    ] + (if m.items.len() == 0 {
        seq![plain(4, ids::EMPTY@, ROLE_NOTE@, "No todos yet. Add one above."@)]
    } else {
        items_rows(m.items)
    }) + seq![plain(2, ids::STATUS@, ROLE_STATUS@, status_name(m.items))]
}

pub open spec fn settings_page_rows(m: TodoModel) -> Seq<RowView> {
    seq![
        plain(1, ids::PAGE_SETTINGS@, ROLE_PAGE@, "Settings"@),
        RowView {
            depth: 2,
            id: ids::SETTINGS_CONFIRM_DELETE@,
            role: ROLE_CHECKBOX@,
            name: "Confirm before delete"@,
            value: None,
            checked: Some(m.confirm_delete),
            visible: true,
        },
    ]
}

/// The store's tree: the window with the sidebar toggle, the navigation
/// (hidden with its buttons when the sidebar is closed) and the page.
pub open spec fn tree_rows_spec(m: TodoModel) -> Seq<RowView> {
    seq![
        plain(0, ids::WINDOW@, ROLE_WINDOW@, "Agent Todo"@),
        plain(
            1,
            ids::NAV_TOGGLE@,
            ROLE_BUTTON@,
            if m.sidebar_open {
                "Hide sidebar"@
            } else {
                "Show sidebar"@
            },
        ),
        RowView {
            depth: 1,
            id: ids::NAV@,
            role: ROLE_NAVIGATION@,
            name: "Todo"@,
            value: None,
            checked: None,
            visible: m.sidebar_open,
        },
        RowView {
            depth: 2,
            id: ids::NAV_TODOS@,
            role: ROLE_BUTTON@,
            name: "Todos"@,
            value: None,
            checked: None,
            visible: m.sidebar_open,
        },
        RowView {
            depth: 2,
            id: ids::NAV_SETTINGS@,
            role: ROLE_BUTTON@,
            name: "Settings"@,
            value: None,
            checked: None,
            visible: m.sidebar_open,
        },
    ] + match m.page {
        Page::Todos => todos_page_rows(m),
        Page::Settings => settings_page_rows(m),
    }
}

fn push_row(
    rows: &mut Vec<TreeRow>,
    depth: usize,
    id: String,
    role: &str,
    name: String,
    value: Option<String>,
    checked: Option<bool>,
    visible: bool,
)
    ensures
        rows_view(final(rows)@) == rows_view(old(rows)@).push(
            RowView {
                depth: depth as nat,
                id: id@,
                role: role@,
                name: name@,
                value: opt_view(value),
                checked,
                visible,
            },
        ),
{
    let ghost before = rows@;
    rows.push(TreeRow { depth, id, role: role.to_owned(), name, value, checked, visible });
    assert(rows_view(rows@) =~= rows_view(before).push(rows@.last()@));
}

fn count_done(items: &[Todo]) -> (r: u64)
    ensures
        r == done_count(entries(items@)),
{
    let mut n: u64 = 0;
    let mut i: usize = 0;
    while i < items.len()
        invariant
            i <= items@.len(),
            n == done_count(entries(items@).subrange(0, i as int)),
            n <= i,
        decreases items.len() - i,
    {
        assert(entries(items@).subrange(0, i + 1).drop_last() =~= entries(items@).subrange(0, i as int));
        if items[i].done {
            n += 1;
        }
        i += 1;
    }
    assert(entries(items@).subrange(0, i as int) =~= entries(items@));
    n
}


/// The first row with `id` among the first `n` rows.
pub open spec fn first_row(rows: Seq<RowView>, id: Seq<char>, n: int) -> Option<int>
    decreases n,
{
    if n <= 0 {
        None
    } else {
        match first_row(rows, id, n - 1) {
            Some(k) => Some(k),
            None => if rows[n - 1].id == id {
                Some(n - 1)
            } else {
                None
            },
        }
    }
}

/// The first row with `id`.
pub open spec fn find_row(rows: Seq<RowView>, id: Seq<char>) -> Option<int> {
    first_row(rows, id, rows.len() as int)
}

/// The todo a row stands for: rows `todo-item-{n}`, titled by their name,
/// done when checked.
pub open spec fn row_todo(r: RowView) -> Option<TodoEntry> {
    match numbered_id(ids::ITEM_PREFIX@, r.id) {
        Some(n) => Some(
            TodoEntry {
                id: n,
                title: r.name,
                done: match r.checked {
                    Some(b) => b,
                    None => false,
                },
            },
        ),
        None => None,
    }
}

/// The todos the rows stand for, in row order.
pub open spec fn row_todos(rows: Seq<RowView>) -> Seq<TodoEntry>
    decreases rows.len(),
{
    if rows.len() == 0 {
        Seq::empty()
    } else {
        match row_todo(rows.last()) {
            Some(t) => row_todos(rows.drop_last()).push(t),
            None => row_todos(rows.drop_last()),
        }
    }
}

/// `x` put into `s` after every entry whose id is not larger.
pub open spec fn insert_by_id(s: Seq<TodoEntry>, x: TodoEntry) -> Seq<TodoEntry>
    decreases s.len(),
{
    if s.len() == 0 {
        seq![x]
    } else if s.last().id <= x.id {
        s.push(x)
    } else {
        insert_by_id(s.drop_last(), x).push(s.last())
    }
}

/// `s` sorted by id, entries with equal ids kept in their order.
pub open spec fn sort_by_id(s: Seq<TodoEntry>) -> Seq<TodoEntry>
    decreases s.len(),
{
    if s.len() == 0 {
        Seq::empty()
    } else {
        insert_by_id(sort_by_id(s.drop_last()), s.last())
    }
}

pub open spec fn view_page(rows: Seq<RowView>) -> Page {
    if find_row(rows, ids::PAGE_SETTINGS@) is Some {
        Page::Settings
    } else {
        Page::Todos
    }
}

pub open spec fn view_draft(rows: Seq<RowView>) -> Seq<char> {
    match find_row(rows, ids::INPUT@) {
        Some(k) => match rows[k].value {
            Some(v) => v,
            None => Seq::empty(),
        },
        None => Seq::empty(),
    }
}

pub open spec fn view_confirm_delete(rows: Seq<RowView>) -> bool {
    match find_row(rows, ids::SETTINGS_CONFIRM_DELETE@) {
        Some(k) => rows[k].checked == Some(true),
        None => false,
    }
}

pub open spec fn view_sidebar_open(rows: Seq<RowView>) -> bool {
    match find_row(rows, ids::NAV@) {
        Some(k) => rows[k].visible,
        None => true,
    }
}

fn find_row_exec(rows: &Vec<TreeRow>, id: &str) -> (r: Option<usize>)
    ensures
        match r {
            Some(k) => k < rows@.len() && find_row(rows_view(rows@), id@) == Some(k as int),
            None => find_row(rows_view(rows@), id@) is None,
        },
{
    let ghost rv = rows_view(rows@);
    let mut i: usize = 0;
    while i < rows.len()
        invariant
            i <= rows@.len(),
            rv == rows_view(rows@),
            first_row(rv, id@, i as int) is None,
        decreases rows.len() - i,
    {
        if str_eq(rows[i].id.as_str(), id) {
            assert(first_row(rv, id@, i + 1) == Some(i as int));
            proof {
                lemma_first_row_stays(rv, id@, i + 1);
            }
            return Some(i);
        }
        i += 1;
    }
    None
}

/// A first match among the first `n` rows stays the first match.
proof fn lemma_first_row_stays(rows: Seq<RowView>, id: Seq<char>, n: int)
    requires
        0 <= n <= rows.len(),
        first_row(rows, id, n) is Some,
    ensures
        first_row(rows, id, rows.len() as int) == first_row(rows, id, n),
    decreases rows.len() - n,
{
    if n < rows.len() {
        assert(first_row(rows, id, n + 1) == first_row(rows, id, n));
        lemma_first_row_stays(rows, id, n + 1);
    }
}

/// Inserting at the place past every entry with a smaller-or-equal id is
/// [`insert_by_id`].
proof fn lemma_insert_at(s: Seq<TodoEntry>, x: TodoEntry, k: int)
    requires
        0 <= k <= s.len(),
        forall|j: int| k <= j < s.len() ==> #[trigger] s[j].id > x.id,
        k == 0 || s[k - 1].id <= x.id,
    ensures
        insert_by_id(s, x) == s.insert(k, x),
    decreases s.len(),
{
    if s.len() == 0 {
        assert(s.insert(k, x) =~= seq![x]);
    } else if k == s.len() {
        assert(s.insert(k, x) =~= s.push(x));
    } else {
        assert(s.last().id > x.id);
        lemma_insert_at(s.drop_last(), x, k);
        assert(s.drop_last().insert(k, x).push(s.last()) =~= s.insert(k, x));
    }
}

fn insert_todo(out: &mut Vec<Todo>, x: Todo)
    ensures
        entries(final(out)@) == insert_by_id(entries(old(out)@), x@),
{
    let mut k: usize = out.len();
    while k > 0 && out[k - 1].id > x.id
        invariant
            k <= out@.len(),
            forall|j: int| k <= j < out@.len() ==> #[trigger] out@[j].id > x.id,
        decreases k,
    {
        k -= 1;
    }
    let ghost before = entries(out@);
    proof {
        lemma_insert_at(before, x@, k as int);
    }
    out.insert(k, x);
    assert(entries(out@) =~= before.insert(k as int, x@));
}

impl TodoView {
    /// A client's view of a snapshot: the settings page when its row is
    /// there, the draft, the confirm-delete setting and the sidebar from the
    /// first rows with their ids, and the todo rows sorted by id.
    pub fn from_rows(rows: &Vec<TreeRow>) -> (r: TodoView)
        ensures
            entries(r.items@) == sort_by_id(row_todos(rows_view(rows@))),
            r.page == view_page(rows_view(rows@)),
            r.draft@ == view_draft(rows_view(rows@)),
            r.confirm_delete == view_confirm_delete(rows_view(rows@)),
            r.sidebar_open == view_sidebar_open(rows_view(rows@)),
    {
        let ghost rv = rows_view(rows@);
        let page = if find_row_exec(rows, ids::PAGE_SETTINGS).is_some() {
            Page::Settings
        } else {
            Page::Todos
        };
        let draft = match find_row_exec(rows, ids::INPUT) {
            Some(k) => match &rows[k].value {
                Some(v) => v.clone(),
                None => String::new(),
            },
            None => String::new(),
        };
        let confirm_delete = match find_row_exec(rows, ids::SETTINGS_CONFIRM_DELETE) {
            Some(k) => match rows[k].checked {
                Some(b) => b,
                None => false,
            },
            None => false,
        };
        let sidebar_open = match find_row_exec(rows, ids::NAV) {
            Some(k) => rows[k].visible,
            None => true,
        };
        let mut items: Vec<Todo> = Vec::new();
        let mut i: usize = 0;
        while i < rows.len()
            invariant
                i <= rows@.len(),
                rv == rows_view(rows@),
                entries(items@) == sort_by_id(row_todos(rv.subrange(0, i as int))),
            decreases rows.len() - i,
        {
            let ghost pre = rv.subrange(0, i as int);
            assert(rv.subrange(0, i + 1).drop_last() =~= pre);
            assert(rv.subrange(0, i + 1).last() == rows@[i as int]@);
            match parse_numbered_id(ids::ITEM_PREFIX, rows[i].id.as_str()) {
                Some(n) => {
                    let done = match rows[i].checked {
                        Some(b) => b,
                        None => false,
                    };
                    let t = Todo { id: n, title: rows[i].name.clone(), done };
                    insert_todo(&mut items, t);
                    assert(row_todos(pre).push(t@).drop_last() =~= row_todos(pre));
                },
                None => {},
            }
            i += 1;
        }
        assert(rv.subrange(0, rows@.len() as int) =~= rv);
        TodoView { items, draft, page, confirm_delete, sidebar_open }
    }
}

impl TodoStore {
    /// The store's semantic tree, depth-first.
    pub fn tree_rows(&self) -> (r: Vec<TreeRow>)
        ensures
            rows_view(r@) == tree_rows_spec(self@),
    {
        let open = self.sidebar_open();
        let mut rows: Vec<TreeRow> = Vec::new();
        push_row(&mut rows, 0, ids::WINDOW.to_owned(), ROLE_WINDOW, "Agent Todo".to_owned(), None, None, true);
        let toggle = if open {
            "Hide sidebar"
        } else {
            "Show sidebar"
        };
        push_row(&mut rows, 1, ids::NAV_TOGGLE.to_owned(), ROLE_BUTTON, toggle.to_owned(), None, None, true);
        push_row(&mut rows, 1, ids::NAV.to_owned(), ROLE_NAVIGATION, "Todo".to_owned(), None, None, open);
        push_row(&mut rows, 2, ids::NAV_TODOS.to_owned(), ROLE_BUTTON, "Todos".to_owned(), None, None, open);
        push_row(&mut rows, 2, ids::NAV_SETTINGS.to_owned(), ROLE_BUTTON, "Settings".to_owned(), None, None, open);
        let ghost head = rows_view(rows@);
        match self.page() {
            Page::Todos => {
                self.push_todos_page(&mut rows);
            },
            Page::Settings => {
                push_row(&mut rows, 1, ids::PAGE_SETTINGS.to_owned(), ROLE_PAGE, "Settings".to_owned(), None, None, true);
                push_row(
                    &mut rows,
                    2,
                    ids::SETTINGS_CONFIRM_DELETE.to_owned(),
                    ROLE_CHECKBOX,
                    "Confirm before delete".to_owned(),
                    None,
                    Some(self.confirm_delete()),
                    true,
                );
                assert(rows_view(rows@) =~= head + settings_page_rows(self@));
            },
        }
        assert(rows_view(rows@) =~= tree_rows_spec(self@));
        rows
    }

    fn push_todos_page(&self, rows: &mut Vec<TreeRow>)
        ensures
            rows_view(final(rows)@) == rows_view(old(rows)@) + todos_page_rows(self@),
    {
        let ghost head = rows_view(rows@);
        push_row(rows, 1, ids::PAGE_TODOS.to_owned(), ROLE_PAGE, "Todos".to_owned(), None, None, true);
        push_row(
            rows,
            2,
            ids::INPUT.to_owned(),
            ROLE_TEXTBOX,
            "What needs doing?".to_owned(),
            Some(self.draft().to_owned()),
            None,
            true,
        );
        push_row(rows, 2, ids::ADD.to_owned(), ROLE_BUTTON, "Add".to_owned(), None, None, true);
        push_row(rows, 2, ids::LIST_SCROLL.to_owned(), ROLE_SCROLL, "Todo list".to_owned(), None, None, true);
        push_row(rows, 3, ids::LIST.to_owned(), ROLE_LIST, "Todos".to_owned(), None, None, true);
        let items = self.items();
        let ghost mid = rows_view(rows@);
        if items.len() == 0 {
            push_row(
                rows,
                4,
                ids::EMPTY.to_owned(),
                ROLE_NOTE,
                "No todos yet. Add one above.".to_owned(),
                None,
                None,
                true,
            );
        } else {
            let mut i: usize = 0;
            while i < items.len()
                invariant
                    i <= items@.len(),
                    entries(items@) == self@.items,
                    rows_view(rows@) == mid + items_rows(entries(items@).subrange(0, i as int)),
                decreases items.len() - i,
            {
                let t = &items[i];
                let ghost pre = rows_view(rows@);
                push_row(rows, 4, ids::item(t.id), ROLE_LIST_ITEM, t.title.clone(), None, Some(t.done), true);
                push_row(rows, 5, ids::toggle(t.id), ROLE_CHECKBOX, t.title.clone(), None, Some(t.done), true);
                let mut del = "Delete ".to_owned();
                del.append(t.title.as_str());
                push_row(rows, 5, ids::delete(t.id), ROLE_BUTTON, del, None, None, true);
                proof {
                    let s = entries(items@).subrange(0, i + 1);
                    assert(s.drop_last() =~= entries(items@).subrange(0, i as int));
                    assert(s.last() == t@);
                    assert(rows_view(rows@) =~= pre + item_rows(t@));
                }
                i += 1;
            }
            assert(entries(items@).subrange(0, i as int) =~= entries(items@));
        }
        let ghost list = rows_view(rows@);
        let status = if items.len() == 0 {
            "No todos".to_owned()
        } else {
            let n = items.len() as u64;
            let done = count_done(items);
            let mut s = String::new();
            push_chars(&mut s, &decimal_string(n));
            s.append(" todos, ");
            push_chars(&mut s, &decimal_string(done));
            s.append(" done");
            s
        };
        push_row(rows, 2, ids::STATUS.to_owned(), ROLE_STATUS, status, None, None, true);
        assert(rows_view(rows@) =~= head + todos_page_rows(self@));
    }
}


// ---------------------------------------------------------------------------
// Reading the store back from its tree
// ---------------------------------------------------------------------------

proof fn lemma_first_row_none(rows: Seq<RowView>, id: Seq<char>, n: int)
    requires
        0 <= n <= rows.len(),
        forall|j: int| 0 <= j < n ==> #[trigger] rows[j].id != id,
    ensures
        first_row(rows, id, n) is None,
    decreases n,
{
    if n > 0 {
        lemma_first_row_none(rows, id, n - 1);
    }
}

proof fn lemma_find_row_at(rows: Seq<RowView>, id: Seq<char>, k: int)
    requires
        0 <= k < rows.len(),
        rows[k].id == id,
        forall|j: int| 0 <= j < k ==> #[trigger] rows[j].id != id,
    ensures
        find_row(rows, id) == Some(k),
{
    lemma_first_row_none(rows, id, k);
    assert(first_row(rows, id, k + 1) == Some(k));
    lemma_first_row_stays(rows, id, k + 1);
}

proof fn lemma_find_row_absent(rows: Seq<RowView>, id: Seq<char>)
    requires
        forall|j: int| 0 <= j < rows.len() ==> #[trigger] rows[j].id != id,
    ensures
        find_row(rows, id) is None,
{
    lemma_first_row_none(rows, id, rows.len() as int);
}

proof fn lemma_digits_value_decimal(n: nat)
    ensures
        digits_value(decimal(n)) == n,
    decreases n,
{
    let c = digit_char(n % 10);
    assert(digit_value(c) == n % 10);
    assert(n == (n / 10) * 10 + n % 10) by (nonlinear_arith);
    let d = decimal(n);
    if n >= 10 {
        lemma_digits_value_decimal(n / 10);
        assert(d == decimal(n / 10).push(c));
        assert(d.drop_last() =~= decimal(n / 10));
        assert(d.last() == c);
        assert(digits_value(d) == digits_value(d.drop_last()) * 10 + digit_value(d.last()));
    } else {
        assert(d == seq![digit_char(n)]);
        assert(n % 10 == n);
        assert(d.drop_last() =~= Seq::<char>::empty());
        assert(digits_value(d.drop_last()) == 0);
        assert(d.last() == c);
        assert(digits_value(d) == digits_value(d.drop_last()) * 10 + digit_value(d.last()));
    }
}

/// `todo-item-{n}` reads back as `n`.
proof fn lemma_item_id_parses(n: u64)
    ensures
        numbered_id(ids::ITEM_PREFIX@, ids::ITEM_PREFIX@ + decimal(n as nat)) == Some(n),
{
    let p = ids::ITEM_PREFIX@;
    let d = decimal(n as nat);
    let s = p + d;
    assert(s.subrange(0, p.len() as int) =~= p);
    assert(s.subrange(p.len() as int, s.len() as int) =~= d);
    lemma_decimal_digits(n as nat);
    lemma_digits_value_decimal(n as nat);
    assert(is_digit(d[0]));
}

/// An id that differs from `todo-item-` at one of its first ten places is
/// not a todo row.
proof fn lemma_not_item(id: Seq<char>, k: int)
    requires
        0 <= k < 10,
        k < id.len(),
        id[k] != ids::ITEM_PREFIX@[k],
    ensures
        numbered_id(ids::ITEM_PREFIX@, id) is None,
{
    reveal_strlit("todo-item-");
    if starts_with(id, ids::ITEM_PREFIX@) {
        assert(id.subrange(0, 10)[k] == id[k]);
    }
}

proof fn lemma_row_todos_concat(a: Seq<RowView>, b: Seq<RowView>)
    ensures
        row_todos(a + b) == row_todos(a) + row_todos(b),
    decreases b.len(),
{
    if b.len() == 0 {
        assert(a + b =~= a);
        assert(row_todos(a) + row_todos(b) =~= row_todos(a));
    } else {
        lemma_row_todos_concat(a, b.drop_last());
        assert((a + b).drop_last() =~= a + b.drop_last());
        assert((a + b).last() == b.last());
        match row_todo(b.last()) {
            Some(t) => {
                assert(row_todos(a) + row_todos(b) =~= (row_todos(a) + row_todos(b.drop_last())).push(t));
            },
            None => {},
        }
    }
}

/// Rows none of which stands for a todo give no todos.
proof fn lemma_row_todos_none(rows: Seq<RowView>)
    requires
        forall|j: int| 0 <= j < rows.len() ==> #[trigger] row_todo(rows[j]) is None,
    ensures
        row_todos(rows) == Seq::<TodoEntry>::empty(),
    decreases rows.len(),
{
    if rows.len() > 0 {
        assert(row_todo(rows[rows.len() - 1]) is None);
        lemma_row_todos_none(rows.drop_last());
    }
}

proof fn lemma_prefix_ids(n: nat)
    ensures
        (ids::ITEM_PREFIX@ + decimal(n))[0] == 't',
        (ids::ITEM_PREFIX@ + decimal(n))[5] == 'i',
        (ids::ITEM_PREFIX@ + decimal(n))[6] == 't',
        (ids::TOGGLE_PREFIX@ + decimal(n))[0] == 't',
        (ids::TOGGLE_PREFIX@ + decimal(n))[5] == 't',
        (ids::DELETE_PREFIX@ + decimal(n))[0] == 't',
        (ids::DELETE_PREFIX@ + decimal(n))[5] == 'd',
        (ids::TOGGLE_PREFIX@ + decimal(n)).len() > 10,
        (ids::DELETE_PREFIX@ + decimal(n)).len() > 10,
{
    reveal_strlit("todo-item-");
    reveal_strlit("todo-toggle-");
    reveal_strlit("todo-delete-");
}

/// The rows of the todos, as far as their ids go: each starts with `t`,
/// has at least seven characters, and has `i`, `t` or `d` at its sixth
/// place, with `t` at the seventh after an `i`.
pub open spec fn todo_row_id(id: Seq<char>) -> bool {
    &&& id.len() > 6
    &&& id[0] == 't'
    &&& (id[5] == 'i' && id[6] == 't' || id[5] == 't' || id[5] == 'd')
}

proof fn lemma_items_rows(items: Seq<TodoEntry>)
    ensures
        forall|j: int| 0 <= j < items_rows(items).len() ==> todo_row_id(#[trigger] items_rows(items)[j].id),
        forall|j: int| 0 <= j < items_rows(items).len() && j % 3 != 0 ==> #[trigger] row_todo(items_rows(items)[j]) is None,
        row_todos(items_rows(items)) == items,
        items_rows(items).len() == 3 * items.len(),
    decreases items.len(),
{
    if items.len() > 0 {
        let pre = items.drop_last();
        let t = items.last();
        lemma_items_rows(pre);
        let rs = item_rows(t);
        reveal_strlit("todo-item-");
        lemma_prefix_ids(t.id as nat);
        lemma_item_id_parses(t.id);
        lemma_not_item(rs[1].id, 5);
        lemma_not_item(rs[2].id, 5);
        let all = items_rows(items);
        assert(all == items_rows(pre) + rs);
        assert forall|j: int| 0 <= j < all.len() implies todo_row_id(#[trigger] all[j].id) by {
            if j >= items_rows(pre).len() {
                assert(all[j] == rs[j - items_rows(pre).len()]);
            }
        }
        assert forall|j: int| 0 <= j < all.len() && j % 3 != 0 implies #[trigger] row_todo(all[j]) is None by {
            if j >= items_rows(pre).len() {
                assert(all[j] == rs[j - items_rows(pre).len()]);
            }
        }
        lemma_row_todos_concat(items_rows(pre), rs);
        let s2 = rs.drop_last();
        let s1 = s2.drop_last();
        assert(s1 =~= seq![rs[0]]);
        assert(s1.drop_last() =~= Seq::<RowView>::empty());
        assert(row_todos(s1.drop_last()) =~= Seq::<TodoEntry>::empty());
        assert(row_todo(rs[0]) == Some(t));
        assert(row_todos(s1) =~= seq![t]);
        assert(row_todos(s2) =~= seq![t]);
        assert(row_todos(rs) =~= seq![t]);
        assert(pre.push(t) =~= items);
    }
}

/// Insertion keeps an increasing sequence as it is.
proof fn lemma_sort_sorted(s: Seq<TodoEntry>)
    requires
        forall|i: int, j: int| 0 <= i < j < s.len() ==> #[trigger] s[i].id < #[trigger] s[j].id,
    ensures
        sort_by_id(s) == s,
    decreases s.len(),
{
    if s.len() > 0 {
        let pre = s.drop_last();
        lemma_sort_sorted(pre);
        if pre.len() > 0 {
            assert(pre.last().id < s.last().id);
        }
        assert(pre.push(s.last()) =~= s);
    }
}

proof fn lemma_const_ids()
    ensures
        ids::WINDOW@ == "todo-window"@,
        ids::NAV_TOGGLE@ == "nav-toggle-sidebar"@,
        ids::NAV@ == "todo-nav"@,
        ids::NAV_TODOS@ == "nav-todos"@,
        ids::NAV_SETTINGS@ == "nav-settings"@,
        ids::PAGE_TODOS@ == "page-todos"@,
        ids::PAGE_SETTINGS@ == "page-settings"@,
        ids::INPUT@ == "todo-input"@,
        ids::ADD@ == "todo-add"@,
        ids::LIST_SCROLL@ == "todo-list-scroll"@,
        ids::LIST@ == "todo-list"@,
        ids::EMPTY@ == "todo-empty"@,
        ids::STATUS@ == "todo-status"@,
        ids::SETTINGS_CONFIRM_DELETE@ == "settings-confirm-delete"@,
        ids::ITEM_PREFIX@ == "todo-item-"@,
{
    reveal_strlit("todo-window");
    reveal_strlit("nav-toggle-sidebar");
    reveal_strlit("todo-nav");
    reveal_strlit("nav-todos");
    reveal_strlit("nav-settings");
    reveal_strlit("page-todos");
    reveal_strlit("page-settings");
    reveal_strlit("todo-input");
    reveal_strlit("todo-add");
    reveal_strlit("todo-list-scroll");
    reveal_strlit("todo-list");
    reveal_strlit("todo-empty");
    reveal_strlit("todo-status");
    reveal_strlit("settings-confirm-delete");
    reveal_strlit("todo-item-");
}

/// The fixed (non-todo) ids of the store's tree.
pub open spec fn fixed_id(id: Seq<char>) -> bool {
    ||| id == ids::WINDOW@
    ||| id == ids::NAV_TOGGLE@
    ||| id == ids::NAV@
    ||| id == ids::NAV_TODOS@
    ||| id == ids::NAV_SETTINGS@
    ||| id == ids::PAGE_TODOS@
    ||| id == ids::INPUT@
    ||| id == ids::ADD@
    ||| id == ids::LIST_SCROLL@
    ||| id == ids::LIST@
    ||| id == ids::EMPTY@
    ||| id == ids::STATUS@
    ||| id == ids::PAGE_SETTINGS@
    ||| id == ids::SETTINGS_CONFIRM_DELETE@
}


/// No fixed id names a todo.
proof fn lemma_fixed_id(id: Seq<char>)
    requires
        fixed_id(id),
    ensures
        numbered_id(ids::ITEM_PREFIX@, id) is None,
{
    lemma_const_ids();
    reveal_strlit("todo-window");
    reveal_strlit("nav-toggle-sidebar");
    reveal_strlit("todo-nav");
    reveal_strlit("nav-todos");
    reveal_strlit("nav-settings");
    reveal_strlit("page-todos");
    reveal_strlit("page-settings");
    reveal_strlit("todo-input");
    reveal_strlit("todo-add");
    reveal_strlit("todo-list-scroll");
    reveal_strlit("todo-list");
    reveal_strlit("todo-empty");
    reveal_strlit("todo-status");
    reveal_strlit("settings-confirm-delete");
    reveal_strlit("todo-item-");
    if id == ids::INPUT@ {
        lemma_not_item(id, 6);
    } else if id[0] == 't' {
        lemma_not_item(id, 5);
    } else {
        lemma_not_item(id, 0);
    }
}

/// A todo row's id is none of the ids the view looks up.
proof fn lemma_todo_row_id_not_lookup(id: Seq<char>)
    requires
        todo_row_id(id),
    ensures
        id != ids::PAGE_SETTINGS@,
        id != ids::SETTINGS_CONFIRM_DELETE@,
        id != ids::INPUT@,
        id != ids::NAV@,
{
    lemma_const_ids();
    reveal_strlit("page-settings");
    reveal_strlit("settings-confirm-delete");
    reveal_strlit("todo-input");
    reveal_strlit("todo-nav");
}

/// The rows of the store's tree, place by place.
proof fn lemma_rows_shape(m: TodoModel)
    ensures
        tree_rows_spec(m).len() >= 7,
        tree_rows_spec(m)[0].id == ids::WINDOW@,
        tree_rows_spec(m)[1].id == ids::NAV_TOGGLE@,
        tree_rows_spec(m)[2].id == ids::NAV@,
        tree_rows_spec(m)[2].visible == m.sidebar_open,
        tree_rows_spec(m)[3].id == ids::NAV_TODOS@,
        tree_rows_spec(m)[4].id == ids::NAV_SETTINGS@,
        m.page == Page::Settings ==> {
            &&& tree_rows_spec(m).len() == 7
            &&& tree_rows_spec(m)[5].id == ids::PAGE_SETTINGS@
            &&& tree_rows_spec(m)[6].id == ids::SETTINGS_CONFIRM_DELETE@
            &&& tree_rows_spec(m)[6].checked == Some(m.confirm_delete)
        },
        m.page == Page::Todos ==> {
            &&& tree_rows_spec(m).len() >= 11
            &&& tree_rows_spec(m)[5].id == ids::PAGE_TODOS@
            &&& tree_rows_spec(m)[6].id == ids::INPUT@
            &&& tree_rows_spec(m)[6].value == Some(m.draft)
            &&& tree_rows_spec(m)[7].id == ids::ADD@
            &&& tree_rows_spec(m)[8].id == ids::LIST_SCROLL@
            &&& tree_rows_spec(m)[9].id == ids::LIST@
            &&& tree_rows_spec(m)[tree_rows_spec(m).len() - 1].id == ids::STATUS@
            &&& forall|j: int|
                10 <= j < tree_rows_spec(m).len() - 1 ==> (#[trigger] tree_rows_spec(m)[j]).id == ids::EMPTY@
                    || todo_row_id(tree_rows_spec(m)[j].id)
        },
{
    let r = tree_rows_spec(m);
    lemma_items_rows(m.items);
    if m.page == Page::Todos {
        let list = if m.items.len() == 0 {
            seq![plain(4, ids::EMPTY@, ROLE_NOTE@, "No todos yet. Add one above."@)]
        } else {
            items_rows(m.items)
        };
        assert(list.len() >= 1) by {
            if m.items.len() > 0 {
                assert(items_rows(m.items).len() == 3 * m.items.len());
            }
        }
        assert forall|j: int| 10 <= j < r.len() - 1 implies (#[trigger] r[j]).id == ids::EMPTY@ || todo_row_id(r[j].id) by {
            assert(r[j] == list[j - 10]);
            if m.items.len() > 0 {
                assert(list[j - 10] == items_rows(m.items)[j - 10]);
            }
        }
    }
}

/// Reading a view back from the store's tree gives the store's page and
/// sidebar state; on the todo page its todos, in order, and its draft; on
/// the settings page its confirm-delete setting. What the page does not
/// show reads back empty or off.
pub proof fn lemma_view_reads_back_store(m: TodoModel)
    requires
        m.wf(),
    ensures
        view_page(tree_rows_spec(m)) == m.page,
        view_sidebar_open(tree_rows_spec(m)) == m.sidebar_open,
        sort_by_id(row_todos(tree_rows_spec(m))) == (if m.page == Page::Todos {
            m.items
        } else {
            Seq::<TodoEntry>::empty()
        }),
        view_draft(tree_rows_spec(m)) == (if m.page == Page::Todos {
            m.draft
        } else {
            Seq::<char>::empty()
        }),
        view_confirm_delete(tree_rows_spec(m)) == (m.page == Page::Settings && m.confirm_delete),
{
    let r = tree_rows_spec(m);
    lemma_rows_shape(m);
    lemma_const_ids();
    reveal_strlit("todo-window");
    reveal_strlit("nav-toggle-sidebar");
    reveal_strlit("todo-nav");
    reveal_strlit("nav-todos");
    reveal_strlit("nav-settings");
    reveal_strlit("page-todos");
    reveal_strlit("page-settings");
    reveal_strlit("todo-input");
    reveal_strlit("todo-add");
    reveal_strlit("todo-list-scroll");
    reveal_strlit("todo-list");
    reveal_strlit("todo-empty");
    reveal_strlit("todo-status");
    reveal_strlit("settings-confirm-delete");
    reveal_strlit("todo-item-");
    // Every row's id is a fixed id or a todo row's id.
    assert forall|j: int| 0 <= j < r.len() implies fixed_id((#[trigger] r[j]).id) || todo_row_id(r[j].id) by {
        if j == 0 {} else if j == 1 {} else if j == 2 {} else if j == 3 {} else if j == 4 {}
        else if j == 5 {} else if j == 6 {} else if m.page == Page::Todos {
            if j == 7 {} else if j == 8 {} else if j == 9 {} else if j == r.len() - 1 {} else {}
        }
    }
    // Only the rows of the todos stand for todos.
    assert forall|j: int| 0 <= j < r.len() && fixed_id((#[trigger] r[j]).id) implies row_todo(r[j]) is None by {
        lemma_fixed_id(r[j].id);
    }
    lemma_find_row_at(r, ids::NAV@, 2);
    match m.page {
        Page::Settings => {
            lemma_find_row_at(r, ids::PAGE_SETTINGS@, 5);
            lemma_find_row_at(r, ids::SETTINGS_CONFIRM_DELETE@, 6);
            assert forall|j: int| 0 <= j < r.len() implies (#[trigger] r[j]).id != ids::INPUT@ by {
                if j == 0 {} else if j == 1 {} else if j == 2 {} else if j == 3 {} else if j == 4 {}
                else if j == 5 {} else {}
            }
            lemma_find_row_absent(r, ids::INPUT@);
            assert forall|j: int| 0 <= j < r.len() implies #[trigger] row_todo(r[j]) is None by {
                if j == 0 {} else if j == 1 {} else if j == 2 {} else if j == 3 {} else if j == 4 {}
                else if j == 5 {} else {}
            }
            lemma_row_todos_none(r);
        },
        Page::Todos => {
            assert forall|j: int| 0 <= j < r.len() implies (#[trigger] r[j]).id != ids::PAGE_SETTINGS@
                && r[j].id != ids::SETTINGS_CONFIRM_DELETE@ by {
                if j == 0 {} else if j == 1 {} else if j == 2 {} else if j == 3 {} else if j == 4 {}
                else if j == 5 {} else if j == 6 {} else if j == 7 {} else if j == 8 {} else if j == 9 {}
                else if j == r.len() - 1 {} else if todo_row_id(r[j].id) {
                    lemma_todo_row_id_not_lookup(r[j].id);
                }
            }
            lemma_find_row_absent(r, ids::PAGE_SETTINGS@);
            lemma_find_row_absent(r, ids::SETTINGS_CONFIRM_DELETE@);
            assert forall|j: int| 0 <= j < 6 implies (#[trigger] r[j]).id != ids::INPUT@ by {
                if j == 0 {} else if j == 1 {} else if j == 2 {} else if j == 3 {} else if j == 4 {} else {
                    assert(r[j].id[0] != ids::INPUT@[0]);
                }
            }
            lemma_find_row_at(r, ids::INPUT@, 6);
            lemma_todos_from_list(m);
            lemma_sort_sorted(m.items);
        },
    }
}

/// On the todo page the todos read from the rows are the store's todos.
proof fn lemma_todos_from_list(m: TodoModel)
    requires
        m.page == Page::Todos,
    ensures
        row_todos(tree_rows_spec(m)) == m.items,
{
    lemma_const_ids();
    reveal_strlit("todo-window");
    reveal_strlit("nav-toggle-sidebar");
    reveal_strlit("todo-nav");
    reveal_strlit("nav-todos");
    reveal_strlit("nav-settings");
    reveal_strlit("page-todos");
    reveal_strlit("page-settings");
    reveal_strlit("todo-input");
    reveal_strlit("todo-add");
    reveal_strlit("todo-list-scroll");
    reveal_strlit("todo-list");
    reveal_strlit("todo-empty");
    reveal_strlit("todo-status");
    reveal_strlit("settings-confirm-delete");
    reveal_strlit("todo-item-");
    let r = tree_rows_spec(m);
    let t = todos_page_rows(m);
    let head = r.subrange(0, 5);
    let top = t.subrange(0, 5);
    let list = if m.items.len() == 0 {
        seq![plain(4, ids::EMPTY@, ROLE_NOTE@, "No todos yet. Add one above."@)]
    } else {
        items_rows(m.items)
    };
    let tail = seq![plain(2, ids::STATUS@, ROLE_STATUS@, status_name(m.items))];
    assert(t =~= top + list + tail);
    assert(r =~= head + t);
    lemma_items_rows(m.items);
    assert forall|j: int| 0 <= j < head.len() implies #[trigger] row_todo(head[j]) is None by {
        if j == 0 {} else if j == 1 {} else if j == 2 {} else if j == 3 {} else {}
        lemma_fixed_id(head[j].id);
    }
    assert forall|j: int| 0 <= j < top.len() implies #[trigger] row_todo(top[j]) is None by {
        if j == 0 {} else if j == 1 {} else if j == 2 {} else if j == 3 {} else {}
        lemma_fixed_id(top[j].id);
    }
    assert(row_todo(tail[0]) is None) by {
        lemma_fixed_id(tail[0].id);
    }
    lemma_row_todos_none(head);
    lemma_row_todos_none(top);
    lemma_row_todos_none(tail);
    if m.items.len() == 0 {
        assert(row_todo(list[0]) is None) by {
            lemma_fixed_id(list[0].id);
        }
        lemma_row_todos_none(list);
    }
    lemma_row_todos_concat(top, list);
    lemma_row_todos_concat(top + list, tail);
    lemma_row_todos_concat(head, t);
    assert(row_todos(r) =~= m.items);
}

} // verus!
