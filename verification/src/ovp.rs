//! On-view parameters: type-to-constrain numeric entry while a drawing
//! tool is mid-flight. The active tool exposes dimension fields; keys go
//! into the focused field's buffer; after the click that makes the shape,
//! the typed values become driving constraints on it.
//!
//! Typed values arrive here as the bit patterns of the `f32`s the buffers
//! parse to.

use vstd::prelude::*;

use crate::ident::is_random_id;
use crate::sketch::{
    Arc, AxisDirection, Circle, Constraint, ConstraintKind, GeometryElement, Line, Point, Sketch, Vec2D,
};
use crate::snap::SnapTarget;

verus! {

broadcast use vstd::seq_lib::group_seq_properties;

/// What the active drawing tool waits for, with what its clicks so far
/// fixed.
#[derive(Debug, Clone, Copy, PartialEq, Eq)]
pub enum ToolState {
    /// Between shapes.
    Idle,
    LineFrom { from: SnapTarget },
    RectFrom { corner: SnapTarget },
    RectCenterAt { center: Vec2D },
    CircleFrom { center: SnapTarget },
    Circle3Two { a: Vec2D, b: Vec2D },
    ArcCenter { center: SnapTarget },
    ArcStart { center: SnapTarget, start: SnapTarget },
    PolygonCenter { center: SnapTarget },
    EllipseCenter { center: SnapTarget },
    EllipseMajor { center: SnapTarget, major_pos: Vec2D },
    SlotFrom { from: SnapTarget },
    ArcSlotCenter { center: SnapTarget },
    ArcSlotStart { center: SnapTarget, start: SnapTarget },
    /// A shape of a tool with no dimension fields in progress.
    Busy,
}

impl ToolState {
    /// Whether no shape is in progress.
    pub fn is_idle(&self) -> (b: bool)
        ensures
            b == (*self is Idle),
    {
        match self {
            ToolState::Idle => true,
            _ => false,
        }
    }
}

/// A dimension field the active tool exposes in its current state.
#[derive(Debug, Clone, Copy, PartialEq, Eq, Structural)]
pub enum FieldKind {
    Length,
    Angle,
    Width,
    Height,
    Diameter,
    Radius,
    MajorRadius,
    MinorRadius,
}

impl FieldKind {
    pub open spec fn spec_short(self) -> Seq<char> {
        match self {
            FieldKind::Length => "L"@,
            FieldKind::Angle => "∠"@,
            FieldKind::Width => "W"@,
            FieldKind::Height => "H"@,
            FieldKind::Diameter => "⌀"@,
            FieldKind::Radius => "R"@,
            FieldKind::MajorRadius => "a"@,
            FieldKind::MinorRadius => "b"@,
        }
    }

    /// The field's one-letter tag in the readout.
    pub fn short(self) -> (s: &'static str)
        ensures
            s@ == self.spec_short(),
    {
        match self {
            FieldKind::Length => "L",
            FieldKind::Angle => "∠",
            FieldKind::Width => "W",
            FieldKind::Height => "H",
            FieldKind::Diameter => "⌀",
            FieldKind::Radius => "R",
            FieldKind::MajorRadius => "a",
            FieldKind::MinorRadius => "b",
        }
    }

    /// Whether the field holds an angle (in degrees while typed).
    pub fn is_angle(self) -> (b: bool)
        ensures
            b == (self is Angle),
    {
        match self {
            FieldKind::Angle => true,
            _ => false,
        }
    }
}

/// The dimension fields a tool state exposes, in focus order.
pub open spec fn spec_fields_for(state: ToolState) -> Seq<FieldKind> {
    match state {
        ToolState::LineFrom { .. } => seq![FieldKind::Length, FieldKind::Angle],
        ToolState::RectFrom { .. } | ToolState::RectCenterAt { .. } => seq![FieldKind::Width, FieldKind::Height],
        ToolState::CircleFrom { .. } | ToolState::Circle3Two { .. } => seq![FieldKind::Diameter],
        ToolState::ArcCenter { .. } | ToolState::PolygonCenter { .. } => seq![FieldKind::Radius],
        ToolState::EllipseCenter { .. } => seq![FieldKind::MajorRadius],
        ToolState::EllipseMajor { .. } => seq![FieldKind::MinorRadius],
        ToolState::SlotFrom { .. } | ToolState::ArcSlotCenter { .. } => seq![FieldKind::Length],
        _ => Seq::empty(),
    }
}

/// The dimension fields a tool state exposes (none when nothing is
/// pending, the tool being between shapes).
pub fn fields_for(state: &ToolState) -> (v: Vec<FieldKind>)
    ensures
        v@ == spec_fields_for(*state),
{
    let v = match state {
        ToolState::LineFrom { .. } => vec![FieldKind::Length, FieldKind::Angle],
        ToolState::RectFrom { .. } | ToolState::RectCenterAt { .. } => vec![FieldKind::Width, FieldKind::Height],
        ToolState::CircleFrom { .. } | ToolState::Circle3Two { .. } => vec![FieldKind::Diameter],
        ToolState::ArcCenter { .. } | ToolState::PolygonCenter { .. } => vec![FieldKind::Radius],
        ToolState::EllipseCenter { .. } => vec![FieldKind::MajorRadius],
        ToolState::EllipseMajor { .. } => vec![FieldKind::MinorRadius],
        ToolState::SlotFrom { .. } | ToolState::ArcSlotCenter { .. } => vec![FieldKind::Length],
        _ => Vec::new(),
    };
    assert(v@ =~= spec_fields_for(*state));
    v
}

/// The keys the typed entry reads.
#[derive(Debug, Clone, Copy, PartialEq, Eq)]
pub enum Key {
    Tab,
    Backspace,
    Minus,
    Period,
    Comma,
    Key0,
    Key1,
    Key2,
    Key3,
    Key4,
    Key5,
    Key6,
    Key7,
    Key8,
    Key9,
    /// Any key the entry does not read.
    Other,
}

pub open spec fn spec_digit_of(key: Key) -> Option<char> {
    match key {
        Key::Key0 => Some('0'),
        Key::Key1 => Some('1'),
        Key::Key2 => Some('2'),
        Key::Key3 => Some('3'),
        Key::Key4 => Some('4'),
        Key::Key5 => Some('5'),
        Key::Key6 => Some('6'),
        Key::Key7 => Some('7'),
        Key::Key8 => Some('8'),
        Key::Key9 => Some('9'),
        _ => None,
    }
}

/// The digit a key types, if it is a digit key.
pub fn digit_of(key: Key) -> (r: Option<char>)
    ensures
        r == spec_digit_of(key),
{
    match key {
        Key::Key0 => Some('0'),
        Key::Key1 => Some('1'),
        Key::Key2 => Some('2'),
        Key::Key3 => Some('3'),
        Key::Key4 => Some('4'),
        Key::Key5 => Some('5'),
        Key::Key6 => Some('6'),
        Key::Key7 => Some('7'),
        Key::Key8 => Some('8'),
        Key::Key9 => Some('9'),
        _ => None,
    }
}

/// A typed value whose geometry (and constraint target) only appears on a
/// later click of the same tool: the bit pattern of its `f32`.
#[derive(Debug, Clone, Copy, PartialEq, Eq)]
pub enum PendingDim {
    ArcRadius(u32),
    ArcSlotLength(u32),
}

/// Per-field typed buffers and focus for the active tool's dimension
/// fields, and a value kept for a later click.
#[derive(Debug)]
pub struct DimCapture {
    fields: Vec<FieldKind>,
    buffers: Vec<Vec<char>>,
    focus: usize,
    pending: Option<PendingDim>,
}

/// What a capture holds.
pub struct CaptureView {
    pub fields: Seq<FieldKind>,
    pub buffers: Seq<Seq<char>>,
    pub focus: nat,
    pub pending: Option<PendingDim>,
}

impl View for DimCapture {
    type V = CaptureView;

    closed spec fn view(&self) -> CaptureView {
        CaptureView {
            fields: self.fields@,
            buffers: buffer_views(self.buffers@),
            focus: self.focus as nat,
            pending: self.pending,
        }
    }
}

/// The texts of the buffers.
pub open spec fn buffer_views(v: Seq<Vec<char>>) -> Seq<Seq<char>> {
    v.map_values(|b: Vec<char>| b@)
}

/// A buffer as typing leaves it: a sign can lead, no other minus
/// follows, and it holds at most one decimal point.
pub open spec fn is_entry(b: Seq<char>) -> bool {
    &&& forall|i: int| 0 < i < b.len() ==> #[trigger] b[i] != '-'
    &&& forall|i: int, j: int| 0 <= i < j < b.len() && #[trigger] b[i] == '.' ==> #[trigger] b[j] != '.'
}

/// One buffer per field, the focus on one of them (or at `0` with none),
/// every buffer an entry.
pub open spec fn capture_wf(v: CaptureView) -> bool {
    &&& v.buffers.len() == v.fields.len()
    &&& if v.fields.len() == 0 { v.focus == 0 } else { v.focus < v.fields.len() }
    &&& forall|i: int| 0 <= i < v.buffers.len() ==> is_entry(#[trigger] v.buffers[i])
}

/// `n` empty buffers.
pub open spec fn empty_buffers(n: nat) -> Seq<Seq<char>> {
    Seq::new(n, |i: int| Seq::<char>::empty())
}

/// The capture aligned with a tool state: a different field set drops the
/// typed buffers; back at idle the kept value goes too.
pub open spec fn synced(v: CaptureView, state: ToolState) -> CaptureView {
    let fields = spec_fields_for(state);
    let kept = v.fields == fields;
    CaptureView {
        fields,
        buffers: if kept { v.buffers } else { empty_buffers(fields.len()) },
        focus: if kept { v.focus } else { 0 },
        pending: if state is Idle { None } else { v.pending },
    }
}

/// What a key other than Tab does to a buffer: the new buffer, or `None`
/// when the key is not the entry's.
pub open spec fn edited(b: Seq<char>, key: Key) -> Option<Seq<char>> {
    match key {
        Key::Backspace => if b.len() == 0 { None } else { Some(b.drop_last()) },
        Key::Minus => if b.len() > 0 && b[0] == '-' { Some(b.drop_first()) } else { Some(seq!['-'] + b) },
        Key::Period | Key::Comma => if b.contains('.') { Some(b) } else { Some(b.push('.')) },
        _ => match spec_digit_of(key) {
            Some(c) => Some(b.push(c)),
            None => None,
        },
    }
}

/// The capture after a key, or `None` when the key is not consumed (and
/// nothing changes): Tab moves the focus to the next field, round to the
/// first; other keys edit the focused buffer.
pub open spec fn after_key(v: CaptureView, key: Key) -> Option<CaptureView> {
    if v.fields.len() == 0 {
        None
    } else if key is Tab {
        Some(CaptureView { focus: ((v.focus as int + 1) % (v.fields.len() as int)) as nat, ..v })
    } else {
        match edited(v.buffers[v.focus as int], key) {
            Some(b) => Some(CaptureView { buffers: v.buffers.update(v.focus as int, b), ..v }),
            None => None,
        }
    }
}

/// `n` empty buffers, as vectors.
fn new_buffers(n: usize) -> (v: Vec<Vec<char>>)
    ensures
        buffer_views(v@) == empty_buffers(n as nat),
{
    let mut v: Vec<Vec<char>> = Vec::new();
    let mut i: usize = 0;
    while i < n
        invariant
            i <= n,
            buffer_views(v@) =~= empty_buffers(i as nat),
        decreases n - i,
    {
        let e: Vec<char> = Vec::new();
        let ghost before = v@;
        v.push(e);
        assert(buffer_views(v@) =~= buffer_views(before).push(e@));
        i = i + 1;
        assert(buffer_views(v@) =~= empty_buffers(i as nat));
    }
    v
}

/// Whether two field lists are the same.
fn same_fields(a: &Vec<FieldKind>, b: &Vec<FieldKind>) -> (r: bool)
    ensures
        r == (a@ == b@),
{
    if a.len() != b.len() {
        return false;
    }
    let mut i: usize = 0;
    while i < a.len()
        invariant
            i <= a@.len(),
            a@.len() == b@.len(),
            forall|j: int| 0 <= j < i ==> a@[j] == b@[j],
        decreases a@.len() - i,
    {
        if a[i] != b[i] {
            return false;
        }
        i = i + 1;
    }
    assert(a@ =~= b@);
    true
}

/// Whether `b` holds `c`.
fn holds_char(b: &Vec<char>, c: char) -> (r: bool)
    ensures
        r == b@.contains(c),
{
    let mut i: usize = 0;
    while i < b.len()
        invariant
            i <= b@.len(),
            forall|j: int| 0 <= j < i ==> b@[j] != c,
        decreases b@.len() - i,
    {
        if b[i] == c {
            return true;
        }
        i = i + 1;
    }
    false
}

/// A copy of a buffer.
fn copy_chars(b: &Vec<char>) -> (r: Vec<char>)
    ensures
        r@ == b@,
{
    let mut r: Vec<char> = Vec::new();
    let mut i: usize = 0;
    while i < b.len()
        invariant
            i <= b@.len(),
            r@ == b@.take(i as int),
        decreases b@.len() - i,
    {
        r.push(b[i]);
        i = i + 1;
        assert(r@ =~= b@.take(i as int));
    }
    assert(b@.take(b@.len() as int) =~= b@);
    r
}

/// What a key other than Tab makes of a buffer, or `None` when the key is
/// not the entry's.
fn edit_buffer(b: &Vec<char>, key: Key) -> (r: Option<Vec<char>>)
    ensures
        match (r, edited(b@, key)) {
            (Some(n), Some(e)) => n@ == e,
            (None, None) => true,
            _ => false,
        },
{
    match key {
        Key::Backspace => {
            if b.len() == 0 {
                None
            } else {
                let mut n = copy_chars(b);
                n.pop();
                Some(n)
            }
        },
        Key::Minus => {
            let mut n = copy_chars(b);
            if b.len() > 0 && b[0] == '-' {
                n.remove(0);
                assert(n@ =~= b@.drop_first());
            } else {
                n.insert(0, '-');
                assert(n@ =~= seq!['-'] + b@);
            }
            Some(n)
        },
        Key::Period | Key::Comma => {
            let mut n = copy_chars(b);
            if !holds_char(b, '.') {
                n.push('.');
            }
            Some(n)
        },
        _ => match digit_of(key) {
            Some(c) => {
                let mut n = copy_chars(b);
                n.push(c);
                Some(n)
            },
            None => None,
        },
    }
}

impl DimCapture {
    /// No fields, nothing typed, nothing kept.
    pub fn new() -> (c: Self)
        ensures
            capture_wf(c@),
            c@.fields.len() == 0,
            c@.pending is None,
    {
        let c = DimCapture { fields: Vec::new(), buffers: Vec::new(), focus: 0, pending: None };
        assert(c@.buffers =~= Seq::<Seq<char>>::empty());
        c
    }

    /// The fields, in focus order.
    pub fn fields(&self) -> (r: &Vec<FieldKind>)
        ensures
            r@ == self@.fields,
    {
        &self.fields
    }

    /// The typed text of each field.
    pub fn buffers(&self) -> (r: &Vec<Vec<char>>)
        ensures
            buffer_views(r@) == self@.buffers,
    {
        &self.buffers
    }

    /// The field keys go to.
    pub fn focus(&self) -> (r: usize)
        ensures
            r == self@.focus,
    {
        self.focus
    }

    /// Align the capture with the tool state: a different field set drops
    /// the typed buffers; returning to idle drops any deferred value too.
    pub fn sync(&mut self, state: &ToolState)
        requires
            capture_wf(old(self)@),
        ensures
            capture_wf(final(self)@),
            final(self)@ == synced(old(self)@, *state),
    {
        let fields = fields_for(state);
        if !same_fields(&self.fields, &fields) {
            let n = fields.len();
            self.fields = fields;
            self.buffers = new_buffers(n);
            self.focus = 0;
        }
        if state.is_idle() {
            self.pending = None;
        }
        assert(self@.buffers =~= synced(old(self)@, *state).buffers);
    }

    /// Whether the tool exposes any field.
    pub fn is_active(&self) -> (b: bool)
        ensures
            b == (self@.fields.len() > 0),
    {
        self.fields.len() > 0
    }

    /// Whether any field holds typed text.
    pub fn has_typed_input(&self) -> (b: bool)
        ensures
            b == exists|i: int| 0 <= i < self@.buffers.len() && (#[trigger] self@.buffers[i]).len() > 0,
    {
        let mut i: usize = 0;
        while i < self.buffers.len()
            invariant
                i <= self.buffers@.len(),
                self@.buffers == buffer_views(self.buffers@),
                forall|j: int| 0 <= j < i ==> (#[trigger] self@.buffers[j]).len() == 0,
            decreases self.buffers@.len() - i,
        {
            if self.buffers[i].len() > 0 {
                assert(self@.buffers[i as int].len() > 0);
                return true;
            }
            i = i + 1;
        }
        false
    }

    /// Empty every buffer and focus the first field.
    pub fn clear_buffers(&mut self)
        requires
            capture_wf(old(self)@),
        ensures
            capture_wf(final(self)@),
            final(self)@ == (CaptureView {
                buffers: empty_buffers(old(self)@.buffers.len()),
                focus: 0,
                ..old(self)@
            }),
    {
        let n = self.buffers.len();
        let mut i: usize = 0;
        while i < n
            invariant
                i <= n,
                n == self.buffers@.len(),
                self.fields@ == old(self).fields@,
                self.pending == old(self).pending,
                self.focus == old(self).focus,
                forall|j: int| 0 <= j < i ==> (#[trigger] self.buffers@[j])@.len() == 0,
            decreases n - i,
        {
            self.buffers.set(i, Vec::new());
            i = i + 1;
        }
        self.focus = 0;
        assert(self@.buffers =~= empty_buffers(old(self)@.buffers.len()));
    }

    /// Move the focus to the next field, round to the first.
    fn cycle_focus(&mut self)
        requires
            capture_wf(old(self)@),
            old(self)@.fields.len() > 0,
        ensures
            final(self)@ == after_key(old(self)@, Key::Tab)->0,
    {
        assert(self.focus < self.fields.len());
        self.focus = (self.focus + 1) % self.fields.len();
    }

    /// Route a key into the focused buffer; `true` when it is consumed.
    /// Tab moves the focus; Backspace drops the last character; Minus
    /// toggles a leading sign; a period or comma adds the decimal point
    /// once; a digit is appended.
    pub fn handle_key(&mut self, key: Key) -> (consumed: bool)
        requires
            capture_wf(old(self)@),
        ensures
            capture_wf(final(self)@),
            match after_key(old(self)@, key) {
                Some(v) => consumed && final(self)@ == v,
                None => !consumed && final(self)@ == old(self)@,
            },
    {
        if self.fields.len() == 0 {
            return false;
        }
        if let Key::Tab = key {
            self.cycle_focus();
            return true;
        }
        let ghost v = self@;
        let f = self.focus;
        assert(self.buffers@[f as int]@ == v.buffers[f as int]);
        match edit_buffer(&self.buffers[f], key) {
            Some(b) => {
                proof {
                    let old_b = v.buffers[f as int];
                    assert forall|j: int| 0 < j < b@.len() implies #[trigger] b@[j] != '-' by {
                        if key is Minus && !(old_b.len() > 0 && old_b[0] == '-') {
                            assert(b@[j] == old_b[j - 1]);
                        }
                    }
                }
                self.buffers.set(f, b);
                proof {
                    assert(self@.buffers =~= v.buffers.update(f as int, edited(v.buffers[f as int], key)->0));
                }
                true
            },
            None => false,
        }
    }
}

impl Default for DimCapture {
    fn default() -> (c: Self)
        ensures
            capture_wf(c@),
            c@.fields.len() == 0,
            c@.pending is None,
    {
        DimCapture::new()
    }
}

/// Law: syncing twice with one state is syncing once.
pub proof fn law_sync_is_idempotent(v: CaptureView, state: ToolState)
    ensures
        synced(synced(v, state), state) == synced(v, state),
{
}

/// Law: a capture synced with a state exposes that state's fields, and
/// one synced with a new field set has nothing typed.
pub proof fn law_sync_follows_the_tool(v: CaptureView, state: ToolState)
    ensures
        synced(v, state).fields == spec_fields_for(state),
        v.fields != spec_fields_for(state) ==> forall|i: int|
            0 <= i < synced(v, state).buffers.len() ==> (#[trigger] synced(v, state).buffers[i]).len() == 0,
{
}

/// Law: Minus toggles the sign: pressed twice, a buffer is back as it
/// was.
pub proof fn law_minus_twice_restores(b: Seq<char>)
    requires
        is_entry(b),
    ensures
        edited(b, Key::Minus) matches Some(once) && edited(once, Key::Minus) == Some(b),
{
    let once = edited(b, Key::Minus)->0;
    if b.len() > 0 && b[0] == '-' {
        assert(once == b.drop_first());
        if once.len() > 0 {
            assert(once[0] == b[1]);
        }
        assert(seq!['-'] + once =~= b);
    } else {
        assert(once == seq!['-'] + b);
        assert(once.drop_first() =~= b);
    }
}

/// Law: Backspace takes back a typed digit, and a decimal point typed
/// where there was none.
pub proof fn law_backspace_undoes_typing(b: Seq<char>, key: Key)
    requires
        spec_digit_of(key) is Some || ((key is Period || key is Comma) && !b.contains('.')),
    ensures
        edited(b, key) matches Some(typed) && edited(typed, Key::Backspace) == Some(b),
{
    let typed = edited(b, key)->0;
    assert(typed.drop_last() =~= b);
}

/// Law: every key keeps a capture well formed: one buffer per field, the
/// focus on a field, and no buffer with a second minus or a second
/// decimal point, however the keys come.
pub proof fn law_keys_keep_entries(v: CaptureView, key: Key)
    requires
        capture_wf(v),
    ensures
        after_key(v, key) matches Some(w) ==> capture_wf(w),
        after_key(v, key) matches Some(w) ==> forall|i: int, j: int, k: int|
            #![trigger w.buffers[i][j], w.buffers[i][k]]
            0 <= i < w.buffers.len() && 0 <= j < k < w.buffers[i].len() && w.buffers[i][j] == '.' ==> w.buffers[i][k] != '.',
{
    if v.fields.len() > 0 && key is Tab {
        assert((v.focus as int + 1) % (v.fields.len() as int) < v.fields.len()) by (nonlinear_arith)
            requires
                v.fields.len() > 0,
        ;
    }
    if let Some(w) = after_key(v, key) {
        assert forall|i: int, j: int, k: int|
            #![trigger w.buffers[i][j], w.buffers[i][k]]
            0 <= i < w.buffers.len() && 0 <= j < k < w.buffers[i].len() && w.buffers[i][j] == '.' implies w.buffers[i][k] != '.' by {
            assert(is_entry(w.buffers[i]));
        }
    }
}

/// Law: Tab visits every field in turn: pressed as often as there are
/// fields, it comes back to the field it started on, and it never touches
/// what is typed.
pub proof fn law_tab_cycles(v: CaptureView)
    requires
        capture_wf(v),
        v.fields.len() > 0,
    ensures
        after_key(v, Key::Tab) matches Some(w) && w.buffers == v.buffers && w.fields == v.fields
            && w.focus == (v.focus as int + 1) % (v.fields.len() as int),
        tabbed(v, v.fields.len()) == v,
{
    lemma_tabbed_focus(v, v.fields.len());
    assert((v.focus as int + v.fields.len() as int) % (v.fields.len() as int) == v.focus) by (nonlinear_arith)
        requires
            v.focus < v.fields.len(),
    ;
}

/// The capture after `n` presses of Tab.
pub open spec fn tabbed(v: CaptureView, n: nat) -> CaptureView
    decreases n,
{
    if n == 0 {
        v
    } else {
        match after_key(tabbed(v, (n - 1) as nat), Key::Tab) {
            Some(w) => w,
            None => tabbed(v, (n - 1) as nat),
        }
    }
}

proof fn lemma_tabbed_focus(v: CaptureView, n: nat)
    requires
        capture_wf(v),
        v.fields.len() > 0,
    ensures
        tabbed(v, n) == (CaptureView { focus: ((v.focus as int + n as int) % (v.fields.len() as int)) as nat, ..v }),
    decreases n,
{
    if n > 0 {
        lemma_tabbed_focus(v, (n - 1) as nat);
        let len = v.fields.len() as int;
        let f = v.focus as int;
        let m = n as int;
        assert((1 + (f + m - 1) % len) % len == (1 + (f + m - 1)) % len) by {
            vstd::arithmetic::div_mod::lemma_add_mod_noop_right(1, f + m - 1, len);
        }
    } else {
        vstd::arithmetic::div_mod::lemma_small_mod(v.focus, v.fields.len());
        assert(tabbed(v, 0) == v);
    }
}


/// The value typed for `kind`: the first entry for it.
pub open spec fn typed_of(typed: Seq<(FieldKind, u32)>, kind: FieldKind) -> Option<u32>
    decreases typed.len(),
{
    if typed.len() == 0 {
        None
    } else if typed[0].0 == kind {
        Some(typed[0].1)
    } else {
        typed_of(typed.drop_first(), kind)
    }
}

/// The value typed for `kind`, if any.
pub fn typed_value(typed: &[(FieldKind, u32)], kind: FieldKind) -> (r: Option<u32>)
    ensures
        r == typed_of(typed@, kind),
{
    let mut i: usize = 0;
    while i < typed.len()
        invariant
            i <= typed@.len(),
            typed_of(typed@, kind) == typed_of(typed@.skip(i as int), kind),
        decreases typed@.len() - i,
    {
        let (f, v) = typed[i];
        assert(typed@.skip(i as int)[0] == typed@[i as int]);
        if f == kind {
            return Some(v);
        }
        assert(typed@.skip(i as int).drop_first() =~= typed@.skip(i + 1));
        i = i + 1;
    }
    None
}

/// The absolute value of an `f32`, on its bit pattern: the sign bit
/// cleared, as `f32::abs` does.
pub open spec fn abs_bits(v: u32) -> u32 {
    v & 0x7fff_ffff
}

fn abs_of(v: u32) -> (r: u32)
    ensures
        r == abs_bits(v),
{
    v & 0x7fff_ffff
}

/// The element `back` places from the end (`1` for the last).
pub open spec fn from_end(geometry: Seq<GeometryElement>, back: int) -> Option<GeometryElement> {
    if 1 <= back <= geometry.len() {
        Some(geometry[geometry.len() - back])
    } else {
        None
    }
}

pub open spec fn line_from_end(geometry: Seq<GeometryElement>, back: int) -> Option<Line> {
    match from_end(geometry, back) {
        Some(GeometryElement::Line(l)) => Some(l),
        _ => None,
    }
}

pub open spec fn arc_from_end(geometry: Seq<GeometryElement>, back: int) -> Option<Arc> {
    match from_end(geometry, back) {
        Some(GeometryElement::Arc(a)) => Some(a),
        _ => None,
    }
}

pub open spec fn circle_from_end(geometry: Seq<GeometryElement>, back: int) -> Option<Circle> {
    match from_end(geometry, back) {
        Some(GeometryElement::Circle(c)) => Some(c),
        _ => None,
    }
}

fn line_back(sketch: &Sketch, back: usize) -> (r: Option<Line>)
    ensures
        r == line_from_end(sketch.geometry@, back as int),
{
    let n = sketch.geometry.len();
    if back < 1 || back > n {
        return None;
    }
    match &sketch.geometry[n - back] {
        GeometryElement::Line(l) => Some(*l),
        _ => None,
    }
}

fn arc_back(sketch: &Sketch, back: usize) -> (r: Option<Arc>)
    ensures
        r == arc_from_end(sketch.geometry@, back as int),
{
    let n = sketch.geometry.len();
    if back < 1 || back > n {
        return None;
    }
    match &sketch.geometry[n - back] {
        GeometryElement::Arc(a) => Some(*a),
        _ => None,
    }
}

fn circle_back(sketch: &Sketch, back: usize) -> (r: Option<Circle>)
    ensures
        r == circle_from_end(sketch.geometry@, back as int),
{
    let n = sketch.geometry.len();
    if back < 1 || back > n {
        return None;
    }
    match &sketch.geometry[n - back] {
        GeometryElement::Circle(c) => Some(*c),
        _ => None,
    }
}

/// A sequence of the one value, or of none.
pub open spec fn one_or_none(k: Option<ConstraintKind>) -> Seq<ConstraintKind> {
    match k {
        Some(k) => seq![k],
        None => Seq::empty(),
    }
}

/// The driving dimensions the typed fields put on the shape a click of
/// the tool in `before` just made (`changed`), with the value kept from an
/// earlier click; an angle still in the degrees it was typed in. The
/// polygon's radius is not among them: it brings a circle of its own.
pub open spec fn typed_dimensions(
    geometry: Seq<GeometryElement>,
    before: ToolState,
    changed: bool,
    typed: Seq<(FieldKind, u32)>,
    pending: Option<PendingDim>,
) -> Seq<ConstraintKind> {
    if !changed {
        Seq::empty()
    } else {
        match before {
            ToolState::LineFrom { .. } => match line_from_end(geometry, 1) {
                Some(line) => one_or_none(
                    match typed_of(typed, FieldKind::Length) {
                        Some(len) => Some(
                            ConstraintKind::Distance { point1: line.start, point2: line.end, distance: abs_bits(len) },
                        ),
                        None => None,
                    },
                ) + one_or_none(
                    match typed_of(typed, FieldKind::Angle) {
                        Some(deg) => Some(
                            ConstraintKind::AngleToAxis { line: line.id, axis: AxisDirection::Horizontal, angle_rad: deg },
                        ),
                        None => None,
                    },
                ),
                None => Seq::empty(),
            },
            ToolState::RectFrom { .. } | ToolState::RectCenterAt { .. } => match (
                line_from_end(geometry, 4),
                line_from_end(geometry, 2),
            ) {
                (Some(bottom), Some(top)) => one_or_none(
                    match typed_of(typed, FieldKind::Width) {
                        Some(w) => Some(ConstraintKind::DistanceX { a: bottom.start, b: Some(top.start), value: abs_bits(w) }),
                        None => None,
                    },
                ) + one_or_none(
                    match typed_of(typed, FieldKind::Height) {
                        Some(h) => Some(ConstraintKind::DistanceY { a: bottom.start, b: Some(top.start), value: abs_bits(h) }),
                        None => None,
                    },
                ),
                _ => Seq::empty(),
            },
            ToolState::CircleFrom { .. } | ToolState::Circle3Two { .. } => match (
                circle_from_end(geometry, 1),
                typed_of(typed, FieldKind::Diameter),
            ) {
                (Some(c), Some(d)) => seq![ConstraintKind::Diameter { circle: c.id, diameter: abs_bits(d) }],
                _ => Seq::empty(),
            },
            ToolState::ArcStart { .. } => match (pending, arc_from_end(geometry, 1)) {
                (Some(PendingDim::ArcRadius(r)), Some(a)) => seq![ConstraintKind::Radius { circle: a.id, radius: r }],
                _ => Seq::empty(),
            },
            ToolState::SlotFrom { .. } => match (
                arc_from_end(geometry, 2),
                arc_from_end(geometry, 1),
                typed_of(typed, FieldKind::Length),
            ) {
                (Some(cap_b), Some(cap_a), Some(l)) => seq![
                    ConstraintKind::Distance { point1: cap_a.center, point2: cap_b.center, distance: abs_bits(l) },
                ],
                _ => Seq::empty(),
            },
            ToolState::ArcSlotStart { .. } => match (pending, arc_from_end(geometry, 4), arc_from_end(geometry, 1)) {
                (Some(PendingDim::ArcSlotLength(l)), Some(outer), Some(cap_a)) => seq![
                    ConstraintKind::Distance { point1: outer.center, point2: cap_a.center, distance: l },
                ],
                _ => Seq::empty(),
            },
            _ => Seq::empty(),
        }
    }
}

/// The value kept for a later click after this one: an arc's radius or
/// an arc slot's length typed before the shape exists is kept; the click
/// that makes the shape takes it.
pub open spec fn pending_after(
    before: ToolState,
    after: ToolState,
    changed: bool,
    typed: Seq<(FieldKind, u32)>,
    pending: Option<PendingDim>,
) -> Option<PendingDim> {
    match before {
        ToolState::ArcCenter { .. } => match (after, typed_of(typed, FieldKind::Radius)) {
            (ToolState::ArcStart { .. }, Some(r)) => Some(PendingDim::ArcRadius(abs_bits(r))),
            _ => pending,
        },
        ToolState::ArcStart { .. } => if changed { None } else { pending },
        ToolState::ArcSlotCenter { .. } => match (after, typed_of(typed, FieldKind::Length)) {
            (ToolState::ArcSlotStart { .. }, Some(l)) => Some(PendingDim::ArcSlotLength(abs_bits(l))),
            _ => pending,
        },
        ToolState::ArcSlotStart { .. } => if changed { None } else { pending },
        _ => pending,
    }
}

/// The polygon's typed radius, with the centre it is drawn around, when a
/// click just made a polygon.
pub open spec fn polygon_radius(before: ToolState, changed: bool, typed: Seq<(FieldKind, u32)>) -> Option<
    (SnapTarget, u32),
> {
    match before {
        ToolState::PolygonCenter { center } => if changed {
            match typed_of(typed, FieldKind::Radius) {
                Some(r) => Some((center, abs_bits(r))),
                None => None,
            }
        } else {
            None
        },
        _ => None,
    }
}

/// `made` is `expected` with each angle's typed degrees turned into the
/// radians `radians` gives for them.
pub open spec fn converted<F: Fn(u32) -> u32>(
    expected: Seq<ConstraintKind>,
    made: Seq<ConstraintKind>,
    radians: F,
) -> bool {
    &&& made.len() == expected.len()
    &&& forall|i: int|
        0 <= i < expected.len() ==> match (#[trigger] expected[i], made[i]) {
            (
                ConstraintKind::AngleToAxis { line, axis, angle_rad: deg },
                ConstraintKind::AngleToAxis { line: l2, axis: a2, angle_rad: rad },
            ) => l2 == line && a2 == axis && radians.ensures((deg,), rad),
            (ConstraintKind::AngleToAxis { .. }, _) => false,
            (k, m) => m == k,
        }
}

/// The kinds of a run of constraints.
pub open spec fn kinds_of(cs: Seq<Constraint>) -> Seq<ConstraintKind> {
    cs.map_values(|c: Constraint| c.kind)
}

/// `after` is `before` with constraints of kinds `kinds` appended, each
/// fresh: driving, active, unnamed, under a new id.
pub open spec fn appended(before: Seq<Constraint>, after: Seq<Constraint>, kinds: Seq<ConstraintKind>) -> bool {
    &&& after.len() == before.len() + kinds.len()
    &&& after.take(before.len() as int) == before
    &&& forall|i: int|
        0 <= i < kinds.len() ==> {
            let c = #[trigger] after[before.len() + i];
            &&& c.kind == kinds[i]
            &&& c.driving
            &&& c.active
            &&& c.name is None
            &&& c.label_offset is None
            &&& is_random_id(c.id)
        }
}

/// Add a constraint, keeping the record of what was added.
pub(crate) fn add_recorded(sketch: &mut Sketch, kind: ConstraintKind, Ghost(base): Ghost<Seq<Constraint>>, Ghost(kinds): Ghost<Seq<ConstraintKind>>)
    requires
        appended(base, old(sketch).constraints@, kinds),
    ensures
        appended(base, final(sketch).constraints@, kinds.push(kind)),
        final(sketch).constraints@.drop_last() == old(sketch).constraints@,
        final(sketch).constraints@.last().kind == kind,
        final(sketch).geometry@ == old(sketch).geometry@,
        final(sketch).construction@ == old(sketch).construction@,
        final(sketch).external@ == old(sketch).external@,
        final(sketch).id == old(sketch).id,
        final(sketch).name@ == old(sketch).name@,
        final(sketch).is_fully_constrained == old(sketch).is_fully_constrained,
        final(sketch).plane == old(sketch).plane,
{
    sketch.add_constraint(kind);
    proof {
        let after = sketch.constraints@;
        assert(after.take(base.len() as int) =~= base) by {
            assert(after.drop_last().take(base.len() as int) =~= after.take(base.len() as int));
        }
        assert forall|i: int| 0 <= i < kinds.push(kind).len() implies {
            let c = #[trigger] after[base.len() + i];
            &&& c.kind == kinds.push(kind)[i]
            &&& c.driving
            &&& c.active
            &&& c.name is None
            &&& c.label_offset is None
            &&& is_random_id(c.id)
        } by {
            if i < kinds.len() {
                assert(after[base.len() + i] == old(sketch).constraints@[base.len() + i]);
            }
        }
    }
}

/// After a tool click, add driving constraints for the typed fields, or
/// keep a typed value for a shape that only appears on a later click.
/// `changed` is whether the click changed the sketch; angles are turned
/// from typed degrees into stored radians by `radians`. How many
/// constraints were added.
pub fn apply_typed_constraints<F: Fn(u32) -> u32>(
    capture: &mut DimCapture,
    sketch: &mut Sketch,
    state_before: &ToolState,
    state_after: &ToolState,
    changed: bool,
    typed: &[(FieldKind, u32)],
    radians: F,
) -> (added: usize)
    requires
        forall|d: u32| radians.requires((d,)),
    ensures
        final(capture)@ == (CaptureView {
            pending: pending_after(*state_before, *state_after, changed, typed@, old(capture)@.pending),
            ..old(capture)@
        }),
        match polygon_radius(*state_before, changed, typed@) {
            Some((center, r)) => {
                let g = old(sketch).geometry@;
                let added_geometry = final(sketch).geometry@.skip(g.len() as int);
                let circle = final(sketch).geometry@.last();
                &&& added == 1
                &&& final(sketch).geometry@.take(g.len() as int) == g
                &&& circle matches GeometryElement::Circle(c) && c.radius == r && is_random_id(c.id) && match center {
                    SnapTarget::Existing(id) => {
                        &&& added_geometry.len() == 1
                        &&& c.center == id
                        &&& final(sketch).construction@ == old(sketch).construction@.insert(c.id)
                    },
                    SnapTarget::New(p) => {
                        &&& added_geometry.len() == 2
                        &&& added_geometry[0] matches GeometryElement::Point(pt) && pt.position == p
                            && pt.id == c.center && is_random_id(pt.id)
                        &&& final(sketch).construction@ == old(sketch).construction@.insert(c.center).insert(c.id)
                    },
                }
                &&& appended(
                    old(sketch).constraints@,
                    final(sketch).constraints@,
                    seq![ConstraintKind::Radius { circle: circle.spec_id(), radius: r }],
                )
            },
            None => {
                let expected = typed_dimensions(
                    old(sketch).geometry@,
                    *state_before,
                    changed,
                    typed@,
                    old(capture)@.pending,
                );
                let made = kinds_of(final(sketch).constraints@.skip(old(sketch).constraints@.len() as int));
                &&& added == expected.len()
                &&& final(sketch).geometry@ == old(sketch).geometry@
                &&& final(sketch).construction@ == old(sketch).construction@
                &&& appended(old(sketch).constraints@, final(sketch).constraints@, made)
                &&& converted(expected, made, radians)
            },
        },
        final(sketch).external@ == old(sketch).external@,
        final(sketch).id == old(sketch).id,
        final(sketch).name@ == old(sketch).name@,
        final(sketch).is_fully_constrained == old(sketch).is_fully_constrained,
        final(sketch).plane == old(sketch).plane,
{
    let ghost base = old(sketch).constraints@;
    let ghost geometry = old(sketch).geometry@;
    let ghost pending0 = old(capture)@.pending;
    let ghost expected = typed_dimensions(geometry, *state_before, changed, typed@, pending0);
    let mut made: Ghost<Seq<ConstraintKind>> = Ghost(Seq::empty());
    assert(base.take(base.len() as int) =~= base);
    let mut added: usize = 0;
    match state_before {
        ToolState::LineFrom { .. } => {
            if changed {
                if let Some(line) = line_back(sketch, 1) {
                    if let Some(len) = typed_value(typed, FieldKind::Length) {
                        let k = ConstraintKind::Distance { point1: line.start, point2: line.end, distance: abs_of(len) };
                        add_recorded(sketch, k, Ghost(base), made);
                        proof { made@ = made@.push(k); }
                        added = added + 1;
                    }
                    if let Some(deg) = typed_value(typed, FieldKind::Angle) {
                        let rad = radians(deg);
                        let k = ConstraintKind::AngleToAxis { line: line.id, axis: AxisDirection::Horizontal, angle_rad: rad };
                        add_recorded(sketch, k, Ghost(base), made);
                        proof { made@ = made@.push(k); }
                        added = added + 1;
                    }
                }
            }
        },
        ToolState::RectFrom { .. } | ToolState::RectCenterAt { .. } => {
            if changed {
                if let (Some(bottom), Some(top)) = (line_back(sketch, 4), line_back(sketch, 2)) {
                    if let Some(w) = typed_value(typed, FieldKind::Width) {
                        let k = ConstraintKind::DistanceX { a: bottom.start, b: Some(top.start), value: abs_of(w) };
                        add_recorded(sketch, k, Ghost(base), made);
                        proof { made@ = made@.push(k); }
                        added = added + 1;
                    }
                    if let Some(h) = typed_value(typed, FieldKind::Height) {
                        let k = ConstraintKind::DistanceY { a: bottom.start, b: Some(top.start), value: abs_of(h) };
                        add_recorded(sketch, k, Ghost(base), made);
                        proof { made@ = made@.push(k); }
                        added = added + 1;
                    }
                }
            }
        },
        ToolState::CircleFrom { .. } | ToolState::Circle3Two { .. } => {
            if changed {
                if let (Some(c), Some(d)) = (circle_back(sketch, 1), typed_value(typed, FieldKind::Diameter)) {
                    let k = ConstraintKind::Diameter { circle: c.id, diameter: abs_of(d) };
                    add_recorded(sketch, k, Ghost(base), made);
                    proof { made@ = made@.push(k); }
                    added = added + 1;
                }
            }
        },
        ToolState::ArcCenter { .. } => {
            if let ToolState::ArcStart { .. } = state_after {
                if let Some(r) = typed_value(typed, FieldKind::Radius) {
                    capture.pending = Some(PendingDim::ArcRadius(abs_of(r)));
                }
            }
        },
        ToolState::ArcStart { .. } => {
            if changed {
                let kept = capture.pending;
                capture.pending = None;
                if let Some(PendingDim::ArcRadius(r)) = kept {
                    if let Some(a) = arc_back(sketch, 1) {
                        let k = ConstraintKind::Radius { circle: a.id, radius: r };
                        add_recorded(sketch, k, Ghost(base), made);
                        proof { made@ = made@.push(k); }
                        added = added + 1;
                    }
                }
            }
        },
        ToolState::PolygonCenter { center } => {
            if changed {
                if let Some(r) = typed_value(typed, FieldKind::Radius) {
                    let radius = abs_of(r);
                    let center_id = match center {
                        SnapTarget::Existing(id) => *id,
                        SnapTarget::New(p) => {
                            let id = sketch.add_geometry(GeometryElement::Point(Point::new(*p)));
                            sketch.set_construction(id, true);
                            id
                        },
                    };
                    let circle = sketch.add_geometry(GeometryElement::Circle(Circle::new(center_id, radius)));
                    sketch.set_construction(circle, true);
                    let k = ConstraintKind::Radius { circle, radius };
                    add_recorded(sketch, k, Ghost(base), made);
                    proof {
                        made@ = made@.push(k);
                        assert(made@ =~= seq![k]);
                        let g2 = sketch.geometry@;
                        assert(g2.take(geometry.len() as int) =~= geometry);
                    }
                    added = 1;
                    return added;
                }
            }
        },
        ToolState::SlotFrom { .. } => {
            if changed {
                if let (Some(cap_b), Some(cap_a), Some(l)) = (
                    arc_back(sketch, 2),
                    arc_back(sketch, 1),
                    typed_value(typed, FieldKind::Length),
                ) {
                    let k = ConstraintKind::Distance { point1: cap_a.center, point2: cap_b.center, distance: abs_of(l) };
                    add_recorded(sketch, k, Ghost(base), made);
                    proof { made@ = made@.push(k); }
                    added = added + 1;
                }
            }
        },
        ToolState::ArcSlotCenter { .. } => {
            if let ToolState::ArcSlotStart { .. } = state_after {
                if let Some(l) = typed_value(typed, FieldKind::Length) {
                    capture.pending = Some(PendingDim::ArcSlotLength(abs_of(l)));
                }
            }
        },
        ToolState::ArcSlotStart { .. } => {
            if changed {
                let kept = capture.pending;
                capture.pending = None;
                if let Some(PendingDim::ArcSlotLength(l)) = kept {
                    if let (Some(outer), Some(cap_a)) = (arc_back(sketch, 4), arc_back(sketch, 1)) {
                        let k = ConstraintKind::Distance { point1: outer.center, point2: cap_a.center, distance: l };
                        add_recorded(sketch, k, Ghost(base), made);
                        proof { made@ = made@.push(k); }
                        added = added + 1;
                    }
                }
            }
        },
        _ => {},
    }
    proof {
        let after = sketch.constraints@;
        assert forall|i: int| 0 <= i < made@.len() implies #[trigger] kinds_of(after.skip(base.len() as int))[i]
            == made@[i] by {
            assert(after.skip(base.len() as int)[i] == after[base.len() + i]);
        }
        assert(kinds_of(after.skip(base.len() as int)) =~= made@);
        assert(converted(expected, made@, radians));
    }
    added
}
/// Law: a diameter typed while drawing a circle constrains the diameter of
/// the circle the click just made, to the typed magnitude; nothing else is
/// added.
pub proof fn law_typed_diameter_constrains_the_new_circle(
    geometry: Seq<GeometryElement>,
    before: ToolState,
    typed: Seq<(FieldKind, u32)>,
    pending: Option<PendingDim>,
    c: Circle,
    d: u32,
)
    requires
        before is CircleFrom || before is Circle3Two,
        geometry.len() > 0,
        geometry.last() == GeometryElement::Circle(c),
        typed_of(typed, FieldKind::Diameter) == Some(d),
    ensures
        typed_dimensions(geometry, before, true, typed, pending) == seq![
            (ConstraintKind::Diameter { circle: c.id, diameter: abs_bits(d) }),
        ],
        abs_bits(d) == d || abs_bits(d) == d ^ 0x8000_0000u32,
        abs_bits(d) & 0x8000_0000u32 == 0,
{
    assert(abs_bits(d) == d || abs_bits(d) == d ^ 0x8000_0000u32) by (bit_vector);
    assert(abs_bits(d) & 0x8000_0000u32 == 0) by (bit_vector);
}

/// Law: a length typed while drawing a line constrains the distance between
/// the new line's ends, and an angle typed for it its angle to the
/// horizontal axis (the length first where both are typed).
pub proof fn law_typed_line_fields_constrain_the_new_line(
    geometry: Seq<GeometryElement>,
    before: ToolState,
    typed: Seq<(FieldKind, u32)>,
    pending: Option<PendingDim>,
    line: Line,
)
    requires
        before is LineFrom,
        geometry.len() > 0,
        geometry.last() == GeometryElement::Line(line),
    ensures
        ({
            let ks = typed_dimensions(geometry, before, true, typed, pending);
            &&& ks.len() == (if typed_of(typed, FieldKind::Length) is Some { 1int } else { 0int }) + (if typed_of(
                typed,
                FieldKind::Angle,
            ) is Some {
                1int
            } else {
                0int
            })
            &&& typed_of(typed, FieldKind::Length) matches Some(len) ==> ks[0] == (ConstraintKind::Distance {
                point1: line.start,
                point2: line.end,
                distance: abs_bits(len),
            })
            &&& typed_of(typed, FieldKind::Angle) matches Some(deg) ==> ks.last() == (ConstraintKind::AngleToAxis {
                line: line.id,
                axis: AxisDirection::Horizontal,
                angle_rad: deg,
            })
        }),
{
}

/// Law: a width typed while drawing a rectangle constrains the horizontal
/// distance from its bottom edge's start to its top edge's start, and a
/// height the vertical one (the width first where both are typed).
pub proof fn law_typed_rectangle_fields_constrain_the_new_rectangle(
    geometry: Seq<GeometryElement>,
    before: ToolState,
    typed: Seq<(FieldKind, u32)>,
    pending: Option<PendingDim>,
    bottom: Line,
    top: Line,
)
    requires
        before is RectFrom || before is RectCenterAt,
        geometry.len() >= 4,
        geometry[geometry.len() - 4] == GeometryElement::Line(bottom),
        geometry[geometry.len() - 2] == GeometryElement::Line(top),
    ensures
        ({
            let ks = typed_dimensions(geometry, before, true, typed, pending);
            &&& ks.len() == (if typed_of(typed, FieldKind::Width) is Some { 1int } else { 0int }) + (if typed_of(
                typed,
                FieldKind::Height,
            ) is Some {
                1int
            } else {
                0int
            })
            &&& typed_of(typed, FieldKind::Width) matches Some(w) ==> ks[0] == (ConstraintKind::DistanceX {
                a: bottom.start,
                b: Some(top.start),
                value: abs_bits(w),
            })
            &&& typed_of(typed, FieldKind::Height) matches Some(h) ==> ks.last() == (ConstraintKind::DistanceY {
                a: bottom.start,
                b: Some(top.start),
                value: abs_bits(h),
            })
        }),
{
}

/// Law: a length typed while drawing a slot constrains the distance between
/// the centres of its two caps.
pub proof fn law_typed_slot_length_constrains_the_new_slot(
    geometry: Seq<GeometryElement>,
    before: ToolState,
    typed: Seq<(FieldKind, u32)>,
    pending: Option<PendingDim>,
    cap_b: Arc,
    cap_a: Arc,
    l: u32,
)
    requires
        before is SlotFrom,
        geometry.len() >= 2,
        geometry[geometry.len() - 2] == GeometryElement::Arc(cap_b),
        geometry[geometry.len() - 1] == GeometryElement::Arc(cap_a),
        typed_of(typed, FieldKind::Length) == Some(l),
    ensures
        typed_dimensions(geometry, before, true, typed, pending) == seq![
            (ConstraintKind::Distance { point1: cap_a.center, point2: cap_b.center, distance: abs_bits(l) }),
        ],
{
}

/// Law: a radius typed for an arc before its start is placed becomes, on the
/// click that makes the arc, the radius of that arc; the value is kept in
/// between, as its magnitude.
pub proof fn law_typed_arc_radius_constrains_the_new_arc(
    geometry: Seq<GeometryElement>,
    center: SnapTarget,
    start: SnapTarget,
    typed: Seq<(FieldKind, u32)>,
    later: Seq<(FieldKind, u32)>,
    pending: Option<PendingDim>,
    a: Arc,
    r: u32,
)
    requires
        typed_of(typed, FieldKind::Radius) == Some(r),
        geometry.len() > 0,
        geometry.last() == GeometryElement::Arc(a),
    ensures
        pending_after(
            ToolState::ArcCenter { center },
            ToolState::ArcStart { center, start },
            true,
            typed,
            pending,
        ) == Some(PendingDim::ArcRadius(abs_bits(r))),
        typed_dimensions(
            geometry,
            ToolState::ArcStart { center, start },
            true,
            later,
            Some(PendingDim::ArcRadius(abs_bits(r))),
        ) == seq![(ConstraintKind::Radius { circle: a.id, radius: abs_bits(r) })],
{
}

/// Law: a click that changes nothing adds no constraint, whatever was typed.
pub proof fn law_unchanged_click_adds_nothing(
    geometry: Seq<GeometryElement>,
    before: ToolState,
    typed: Seq<(FieldKind, u32)>,
    pending: Option<PendingDim>,
)
    ensures
        typed_dimensions(geometry, before, false, typed, pending).len() == 0,
        polygon_radius(before, false, typed) is None,
{
}

/// Law: a length typed for an arc slot before its start is placed becomes,
/// on the click that makes the slot, the distance from the slot's centre
/// to the centre of its first cap; the value is kept in between, as its
/// magnitude.
pub proof fn law_typed_arc_slot_length_constrains_the_new_slot(
    geometry: Seq<GeometryElement>,
    center: SnapTarget,
    start: SnapTarget,
    typed: Seq<(FieldKind, u32)>,
    later: Seq<(FieldKind, u32)>,
    pending: Option<PendingDim>,
    outer: Arc,
    cap_a: Arc,
    l: u32,
)
    requires
        typed_of(typed, FieldKind::Length) == Some(l),
        geometry.len() >= 4,
        geometry[geometry.len() - 4] == GeometryElement::Arc(outer),
        geometry[geometry.len() - 1] == GeometryElement::Arc(cap_a),
    ensures
        pending_after(
            ToolState::ArcSlotCenter { center },
            ToolState::ArcSlotStart { center, start },
            true,
            typed,
            pending,
        ) == Some(PendingDim::ArcSlotLength(abs_bits(l))),
        typed_dimensions(
            geometry,
            ToolState::ArcSlotStart { center, start },
            true,
            later,
            Some(PendingDim::ArcSlotLength(abs_bits(l))),
        ) == seq![(ConstraintKind::Distance { point1: outer.center, point2: cap_a.center, distance: abs_bits(l) })],
{
}

/// Law: a radius typed while placing a polygon's centre is, on the click
/// that makes the polygon, the radius of its circle about that centre, as
/// the typed magnitude.
pub proof fn law_typed_polygon_radius(center: SnapTarget, typed: Seq<(FieldKind, u32)>, r: u32)
    requires
        typed_of(typed, FieldKind::Radius) == Some(r),
    ensures
        polygon_radius(ToolState::PolygonCenter { center }, true, typed) == Some((center, abs_bits(r))),
{
}

} // verus!
