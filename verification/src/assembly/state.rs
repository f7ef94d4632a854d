use crate::assembly::error::{failure, plain, AsmError, AsmErrorView, ErrorKind};
use crate::assembly::parser::{Address, Label, SExp, SExpView};
use vstd::hash_map::StringHashMap;
use vstd::prelude::*;

verus! {

/// The bytes of a section and the place where the next byte goes.
#[derive(Debug)]
pub struct Memory {
    pub mem: Vec<u8>,
    pub mem_ptr: usize,
}

/// A named region of the target address space.
#[derive(Debug)]
pub struct Section {
    pub name: String,
    pub offset: Address,
    pub length: Option<u64>,
    pub label_only: bool,
    pub memory: Memory,
}

/// What a `Section` holds.
pub struct SectionView {
    pub name: Seq<char>,
    pub offset: u64,
    pub length: Option<u64>,
    pub label_only: bool,
    pub mem: Seq<u8>,
    pub mem_ptr: nat,
}

impl View for Section {
    type V = SectionView;

    open spec fn view(&self) -> SectionView {
        SectionView {
            name: self.name@,
            offset: self.offset.0,
            length: self.length,
            label_only: self.label_only,
            mem: self.memory.mem@,
            mem_ptr: self.memory.mem_ptr as nat,
        }
    }
}

impl SectionView {
    /// The section's invariant: the cursor lies inside the buffer; a
    /// label-only section has no bytes; a section with a length has a buffer
    /// of that length; one without has a buffer that ends at the cursor.
    pub open spec fn wf(self) -> bool {
        &&& self.mem_ptr <= self.mem.len()
        &&& self.label_only ==> self.mem.len() == 0
        &&& !self.label_only ==> match self.length {
            Some(l) => self.mem.len() == l,
            None => self.mem.len() == self.mem_ptr,
        }
    }

    /// Whether `n` more bytes fit: into the section's length, or, where
    /// it has none, into the longest buffer there can be.
    pub open spec fn room(self, n: nat) -> bool {
        match self.length {
            Some(_) => self.mem_ptr + n <= self.mem.len(),
            None => self.mem_ptr + n <= isize::MAX,
        }
    }

    /// The section after `bytes` were written at its cursor.
    pub open spec fn write(self, bytes: Seq<u8>) -> SectionView {
        let head = self.mem.subrange(0, self.mem_ptr as int) + bytes;
        SectionView {
            mem: if self.mem_ptr + bytes.len() <= self.mem.len() {
                head + self.mem.subrange((self.mem_ptr + bytes.len()) as int, self.mem.len() as int)
            } else {
                head
            },
            mem_ptr: self.mem_ptr + bytes.len(),
            ..self
        }
    }

    /// The section after `bytes` replaced what stood at `index`.
    pub open spec fn patch(self, index: nat, bytes: Seq<u8>) -> SectionView {
        SectionView {
            mem: self.mem.subrange(0, index as int) + bytes + self.mem.subrange(
                (index + bytes.len()) as int,
                self.mem.len() as int,
            ),
            ..self
        }
    }
}

/// `n` zero bytes.
pub open spec fn zeros(n: nat) -> Seq<u8> {
    Seq::new(n, |i: int| 0u8)
}

impl Memory {
    /// Puts `v` at the cursor and moves the cursor on; a buffer that ends at
    /// the cursor grows by one.
    pub fn push_u8(&mut self, v: u8)
        requires
            old(self).mem_ptr <= old(self).mem.len(),
            old(self).mem_ptr < usize::MAX,
        ensures
            final(self).mem_ptr == old(self).mem_ptr + 1,
            final(self).mem@ == if old(self).mem_ptr < old(self).mem.len() {
                old(self).mem@.update(old(self).mem_ptr as int, v)
            } else {
                old(self).mem@.push(v)
            },
    {
        if self.mem_ptr < self.mem.len() {
            self.mem[self.mem_ptr] = v;
        } else {
            self.mem.push(v);
        }
        self.mem_ptr = self.mem_ptr + 1;
    }

    /// Puts the two bytes of `v` at the cursor, the low one first.
    pub fn push_u16(&mut self, v: u16)
        requires
            old(self).mem_ptr <= old(self).mem.len(),
            old(self).mem_ptr + 1 < usize::MAX,
            old(self).mem_ptr + 2 <= old(self).mem.len() || old(self).mem_ptr == old(
                self,
            ).mem.len(),
        ensures
            final(self).mem_ptr == old(self).mem_ptr + 2,
            final(self).mem@ == if old(self).mem_ptr < old(self).mem.len() {
                old(self).mem@.update(old(self).mem_ptr as int, (v % 256) as u8).update(
                    old(self).mem_ptr + 1,
                    (v / 256) as u8,
                )
            } else {
                old(self).mem@.push((v % 256) as u8).push((v / 256) as u8)
            },
    {
        self.push_u8((v % 256) as u8);
        self.push_u8((v / 256) as u8);
    }
}

impl Section {
    /// Writes `bytes` at the cursor.
    pub fn write_bytes(&mut self, bytes: &Vec<u8>)
        requires
            old(self)@.wf(),
            !old(self).label_only,
            old(self)@.room(bytes@.len()),
        ensures
            final(self)@ == old(self)@.write(bytes@),
            final(self)@.wf(),
    {
        let mut i: usize = 0;
        assert(self@.mem =~= old(self)@.write(bytes@.take(0)).mem);
        while i < bytes.len()
            invariant
                i <= bytes.len(),
                old(self)@.wf(),
                !old(self).label_only,
                old(self)@.room(bytes@.len()),
                self@ == old(self)@.write(bytes@.take(i as int)),
            decreases bytes.len() - i,
        {
            self.memory.push_u8(bytes[i]);
            i += 1;
            assert(self@.mem =~= old(self)@.write(bytes@.take(i as int)).mem);
        }
        assert(bytes@.take(bytes.len() as int) == bytes@);
    }

    /// Writes `n` zero bytes at the cursor.
    pub fn write_zeros(&mut self, n: usize)
        requires
            old(self)@.wf(),
            !old(self).label_only,
            old(self)@.room(n as nat),
        ensures
            final(self)@ == old(self)@.write(zeros(n as nat)),
            final(self)@.wf(),
    {
        let mut i: usize = 0;
        assert(self@.mem =~= old(self)@.write(zeros(0)).mem);
        while i < n
            invariant
                i <= n,
                old(self)@.wf(),
                !old(self).label_only,
                old(self)@.room(n as nat),
                self@ == old(self)@.write(zeros(i as nat)),
            decreases n - i,
        {
            self.memory.push_u8(0);
            i += 1;
            assert(self@.mem =~= old(self)@.write(zeros(i as nat)).mem);
        }
    }
}

/// The addresses of the labels defined so far, by name.
pub struct LabelTable {
    map: StringHashMap<Address>,
}

impl View for LabelTable {
    type V = Map<Seq<char>, Address>;

    closed spec fn view(&self) -> Map<Seq<char>, Address> {
        self.map@
    }
}

impl LabelTable {
    /// The table without labels.
    pub fn new() -> (r: LabelTable)
        ensures
            r@ == Map::<Seq<char>, Address>::empty(),
    {
        LabelTable { map: StringHashMap::new() }
    }

    /// Gives `label` the address `address`, whatever it had.
    pub fn insert(&mut self, label: Label, address: Address)
        ensures
            final(self)@ == old(self)@.insert(label@, address),
    {
        self.map.insert(label.name().to_owned(), address);
    }

    /// Takes the address of `label` away, if it has one.
    pub fn remove(&mut self, label: &Label)
        ensures
            final(self)@ == old(self)@.remove(label@),
    {
        self.map.remove(label.name());
    }

    /// Whether `label` has an address.
    pub fn contains_key(&self, label: &Label) -> (r: bool)
        ensures
            r == self@.contains_key(label@),
    {
        self.map.contains_key(label.name())
    }

    /// The address of `label`, if it has one.
    pub fn get(&self, label: &Label) -> (r: Option<Address>)
        ensures
            r == (if self@.contains_key(label@) {
                Some(self@[label@])
            } else {
                None
            }),
    {
        match self.map.get(label.name()) {
            Some(a) => Some(*a),
            None => None,
        }
    }
}

/// A place in a section that waits for an address: the one byte of a
/// relative jump, or the two bytes of an absolute address.
#[derive(Debug)]
pub enum UnresolvedReference {
    /// The distance from `origin` to `label` goes into one byte.
    Relative { origin: Address, label: Label, sec_name: String, patch_index: usize },
    /// The value of `expr` goes into two bytes, the low one first.
    Absolute { expr: SExp, sec_name: String, patch_index: usize },
}

/// What an `UnresolvedReference` holds.
pub enum RefView {
    Relative { origin: u64, label: Seq<char>, sec_name: Seq<char>, patch_index: nat },
    Absolute { expr: SExpView, sec_name: Seq<char>, patch_index: nat },
}

impl View for UnresolvedReference {
    type V = RefView;

    open spec fn view(&self) -> RefView {
        match self {
            UnresolvedReference::Relative { origin, label, sec_name, patch_index } => {
                RefView::Relative {
                    origin: origin.0,
                    label: label@,
                    sec_name: sec_name@,
                    patch_index: *patch_index as nat,
                }
            },
            UnresolvedReference::Absolute { expr, sec_name, patch_index } => RefView::Absolute {
                expr: expr@,
                sec_name: sec_name@,
                patch_index: *patch_index as nat,
            },
        }
    }
}

impl RefView {
    /// The section that the place lies in.
    pub open spec fn section(self) -> Seq<char> {
        match self {
            RefView::Relative { sec_name, .. } => sec_name,
            RefView::Absolute { sec_name, .. } => sec_name,
        }
    }

    /// Where in the section's buffer the place starts.
    pub open spec fn index(self) -> nat {
        match self {
            RefView::Relative { patch_index, .. } => patch_index,
            RefView::Absolute { patch_index, .. } => patch_index,
        }
    }

    /// The number of bytes of the place.
    pub open spec fn width(self) -> nat {
        match self {
            RefView::Relative { .. } => 1,
            RefView::Absolute { .. } => 2,
        }
    }
}

impl UnresolvedReference {
    /// The section that the place lies in.
    pub fn sec_name(&self) -> (r: &String)
        ensures
            r@ == self@.section(),
    {
        match self {
            UnresolvedReference::Relative { sec_name, .. } => sec_name,
            UnresolvedReference::Absolute { sec_name, .. } => sec_name,
        }
    }

    /// Where in the section's buffer the place starts.
    pub fn patch_index(&self) -> (r: usize)
        ensures
            r == self@.index(),
    {
        match self {
            UnresolvedReference::Relative { patch_index, .. } => *patch_index,
            UnresolvedReference::Absolute { patch_index, .. } => *patch_index,
        }
    }

    /// The number of bytes of the place.
    pub fn patch_width(&self) -> (r: usize)
        ensures
            r == self@.width(),
    {
        match self {
            UnresolvedReference::Relative { .. } => 1,
            UnresolvedReference::Absolute { .. } => 2,
        }
    }
}

/// The state of an assembly: the sections in the order of their definition,
/// the current section and address, the labels, and the places that wait for
/// an address, in the order in which they were met.
pub struct State {
    pub sections: Vec<Section>,
    pub current_section_name: Option<String>,
    pub current_section_address: Address,
    pub label_addresses: LabelTable,
    pub pending_refs: Vec<UnresolvedReference>,
}

/// What a `State` holds.
pub struct StateView {
    pub sections: Seq<SectionView>,
    pub current: Option<Seq<char>>,
    pub address: u64,
    pub labels: Map<Seq<char>, Address>,
    pub pending: Seq<RefView>,
}

/// The views of `sections`, in order.
pub open spec fn sections_view(sections: Seq<Section>) -> Seq<SectionView> {
    Seq::new(sections.len(), |i: int| sections[i]@)
}

/// The views of `refs`, in order.
pub open spec fn refs_view(refs: Seq<UnresolvedReference>) -> Seq<RefView> {
    Seq::new(refs.len(), |i: int| refs[i]@)
}

/// The view of a section's name, if there is one.
pub open spec fn name_view(name: Option<String>) -> Option<Seq<char>> {
    match name {
        Some(n) => Some(n@),
        None => None,
    }
}

impl View for State {
    type V = StateView;

    open spec fn view(&self) -> StateView {
        StateView {
            sections: sections_view(self.sections@),
            current: name_view(self.current_section_name),
            address: self.current_section_address.0,
            labels: self.label_addresses@,
            pending: refs_view(self.pending_refs@),
        }
    }
}

/// The index of the first section from `from` on that is named `name`.
pub open spec fn find_from(sections: Seq<SectionView>, name: Seq<char>, from: int) -> Option<int>
    decreases sections.len() - from,
{
    if from < 0 || from >= sections.len() {
        None
    } else if sections[from].name == name {
        Some(from)
    } else {
        find_from(sections, name, from + 1)
    }
}

/// The index of the first section named `name`. A later section of the same
/// name is never found.
pub open spec fn find_section(sections: Seq<SectionView>, name: Seq<char>) -> Option<int> {
    find_from(sections, name, 0)
}

/// Whether the place `r` lies in the written part of a section that takes
/// bytes.
pub open spec fn ref_ok(sections: Seq<SectionView>, r: RefView) -> bool {
    find_section(sections, r.section()) matches Some(k) && !sections[k].label_only && r.index()
        + r.width() <= sections[k].mem_ptr
}

/// Whether the places `refs` of one section follow each other in the
/// section as they do in the list, none reaching into the next.
pub open spec fn sites_ordered(refs: Seq<RefView>) -> bool {
    forall|i: int, j: int|
        #![trigger refs[i], refs[j]]
        0 <= i < j < refs.len() && refs[i].section() == refs[j].section() ==> refs[i].index()
            + refs[i].width() <= refs[j].index()
}

impl StateView {
    /// The state's invariant: each section is well formed, the current
    /// section exists, and each waiting place lies in the written part of
    /// its section, behind the places of that section that wait longer.
    pub open spec fn wf(self) -> bool {
        &&& forall|i: int| 0 <= i < self.sections.len() ==> (#[trigger] self.sections[i]).wf()
        &&& self.current matches Some(name) ==> find_section(self.sections, name) is Some
        &&& forall|j: int| 0 <= j < self.pending.len() ==> ref_ok(self.sections, #[trigger] self.pending[j])
        &&& sites_ordered(self.pending)
    }
}

/// Whether the sections `a` and `b` differ at most in bytes that were
/// written: names, places, lengths and cursors are the same.
pub open spec fn same_shape(a: Seq<SectionView>, b: Seq<SectionView>) -> bool {
    &&& a.len() == b.len()
    &&& forall|i: int|
        0 <= i < a.len() ==> {
            &&& (#[trigger] a[i]).name == b[i].name
            &&& a[i].offset == b[i].offset
            &&& a[i].length == b[i].length
            &&& a[i].label_only == b[i].label_only
            &&& a[i].mem.len() == b[i].mem.len()
            &&& a[i].mem_ptr == b[i].mem_ptr
        }
}

/// The state before the first form.
pub open spec fn initial_state() -> StateView {
    StateView {
        sections: Seq::empty(),
        current: None,
        address: 0,
        labels: Map::empty(),
        pending: Seq::empty(),
    }
}

/// What `find_from` finds lies at or behind `from` and has the name.
pub proof fn lemma_find_bounds(sections: Seq<SectionView>, name: Seq<char>, from: int)
    requires
        0 <= from,
    ensures
        find_from(sections, name, from) matches Some(k) ==> from <= k < sections.len()
            && sections[k].name == name,
    decreases sections.len() - from,
{
    if from < sections.len() && sections[from].name != name {
        lemma_find_bounds(sections, name, from + 1);
    }
}

/// Sections with the same names in the same order are found alike.
pub proof fn lemma_find_same_names(
    a: Seq<SectionView>,
    b: Seq<SectionView>,
    name: Seq<char>,
    from: int,
)
    requires
        a.len() == b.len(),
        forall|i: int| 0 <= i < a.len() ==> a[i].name == b[i].name,
    ensures
        find_from(a, name, from) == find_from(b, name, from),
    decreases a.len() - from,
{
    if 0 <= from < a.len() && a[from].name != name {
        lemma_find_same_names(a, b, name, from + 1);
    }
}

/// A section added at the end is found only under a name that no earlier
/// section has.
pub proof fn lemma_find_push(
    sections: Seq<SectionView>,
    added: SectionView,
    name: Seq<char>,
    from: int,
)
    requires
        0 <= from <= sections.len(),
    ensures
        find_from(sections.push(added), name, from) == match find_from(sections, name, from) {
            Some(k) => Some(k),
            None => if added.name == name {
                Some(sections.len() as int)
            } else {
                None
            },
        },
    decreases sections.len() - from,
{
    let longer = sections.push(added);
    if from < sections.len() {
        if sections[from].name != name {
            lemma_find_push(sections, added, name, from + 1);
        }
    } else {
        assert(find_from(longer, name, from + 1) is None);
    }
}

/// Writing into a section keeps every waiting place where it is.
pub proof fn lemma_write_keeps_wf(st: StateView, k: int, bytes: Seq<u8>, next: StateView)
    requires
        st.wf(),
        0 <= k < st.sections.len(),
        !st.sections[k].label_only,
        st.sections[k].room(bytes.len()),
        next.sections == st.sections.update(k, st.sections[k].write(bytes)),
        next.current == st.current,
        next.pending == st.pending,
    ensures
        next.wf(),
{
    let after = next.sections;
    if st.current is Some {
        lemma_find_same_names(after, st.sections, st.current->0, 0);
    }
    assert forall|j: int| 0 <= j < st.pending.len() implies ref_ok(
        after,
        #[trigger] st.pending[j],
    ) by {
        lemma_find_same_names(after, st.sections, st.pending[j].section(), 0);
        lemma_find_bounds(st.sections, st.pending[j].section(), 0);
    }
}

impl State {
    /// The state before the first form.
    pub fn new() -> (r: State)
        ensures
            r@ == initial_state(),
            r@.wf(),
    {
        let r = State {
            sections: Vec::new(),
            current_section_name: None,
            current_section_address: Address(0),
            label_addresses: LabelTable::new(),
            pending_refs: Vec::new(),
        };
        assert(r@.sections =~= Seq::empty());
        assert(r@.pending =~= Seq::empty());
        r
    }

    /// The index of the first section named `name`.
    pub fn section_index(&self, name: &str) -> (r: Option<usize>)
        ensures
            match find_section(self@.sections, name@) {
                Some(k) => r == Some(k as usize) && 0 <= k < self.sections.len(),
                None => r is None,
            },
    {
        find_index(&self.sections, name)
    }

    /// Whether the state is well formed. A state that only the functions
    /// of this library have changed is.
    pub fn is_well_formed(&self) -> (r: bool)
        ensures
            r == self@.wf(),
    {
        let mut i: usize = 0;
        while i < self.sections.len()
            invariant
                i <= self.sections.len(),
                forall|j: int| 0 <= j < i ==> (#[trigger] self@.sections[j]).wf(),
            decreases self.sections.len() - i,
        {
            let s = &self.sections[i];
            let filled = s.memory.mem.len();
            let shaped = if s.label_only {
                filled == 0
            } else {
                match s.length {
                    Some(l) => filled as u64 == l,
                    None => filled == s.memory.mem_ptr,
                }
            };
            if s.memory.mem_ptr > filled || !shaped {
                return false;
            }
            i += 1;
        }
        if let Some(name) = &self.current_section_name {
            if self.section_index(name.as_str()).is_none() {
                return false;
            }
        }
        let mut j: usize = 0;
        while j < self.pending_refs.len()
            invariant
                j <= self.pending_refs.len(),
                forall|n: int| 0 <= n < j ==> ref_ok(self@.sections, #[trigger] self@.pending[n]),
            decreases self.pending_refs.len() - j,
        {
            let r = &self.pending_refs[j];
            assert(r@ == self@.pending[j as int]);
            match self.section_index(r.sec_name().as_str()) {
                None => {
                    return false;
                },
                Some(k) => {
                    let s = &self.sections[k];
                    let cursor = s.memory.mem_ptr;
                    let width = r.patch_width();
                    if s.label_only || cursor < width || r.patch_index() > cursor - width {
                        return false;
                    }
                },
            }
            j += 1;
        }
        let mut b: usize = 0;
        while b < self.pending_refs.len()
            invariant
                b <= self.pending_refs.len(),
                forall|i: int, j: int|
                    #![trigger self@.pending[i], self@.pending[j]]
                    0 <= i < j < b && self@.pending[i].section() == self@.pending[j].section()
                        ==> self@.pending[i].index() + self@.pending[i].width()
                        <= self@.pending[j].index(),
            decreases self.pending_refs.len() - b,
        {
            let later = &self.pending_refs[b];
            let mut a: usize = 0;
            while a < b
                invariant
                    a <= b < self.pending_refs.len(),
                    later@ == self@.pending[b as int],
                    forall|i: int, j: int|
                        #![trigger self@.pending[i], self@.pending[j]]
                        0 <= i < j < b && self@.pending[i].section() == self@.pending[j].section()
                            ==> self@.pending[i].index() + self@.pending[i].width()
                            <= self@.pending[j].index(),
                    forall|i: int|
                        #![trigger self@.pending[i]]
                        0 <= i < a && self@.pending[i].section() == later@.section()
                            ==> self@.pending[i].index() + self@.pending[i].width()
                            <= later@.index(),
                decreases b - a,
            {
                let earlier = &self.pending_refs[a];
                assert(earlier@ == self@.pending[a as int]);
                if str_equal(earlier.sec_name().as_str(), later.sec_name().as_str()) {
                    let start = later.patch_index();
                    let width = earlier.patch_width();
                    if start < width || earlier.patch_index() > start - width {
                        return false;
                    }
                }
                a += 1;
            }
            b += 1;
        }
        true
    }

    /// The first section named `name`.
    pub fn lookup_section(&self, name: &str) -> (r: Option<&Section>)
        ensures
            match find_section(self@.sections, name@) {
                Some(k) => r matches Some(s) && s@ == self@.sections[k],
                None => r is None,
            },
    {
        match self.section_index(name) {
            Some(k) => Some(&self.sections[k]),
            None => None,
        }
    }
}

/// The index of the first of `sections` that is named `name`.
pub fn find_index(sections: &Vec<Section>, name: &str) -> (r: Option<usize>)
    ensures
        match find_section(sections_view(sections@), name@) {
            Some(k) => r == Some(k as usize) && 0 <= k < sections.len(),
            None => r is None,
        },
{
    let mut i: usize = 0;
    while i < sections.len()
        invariant
            i <= sections.len(),
            find_section(sections_view(sections@), name@) == find_from(
                sections_view(sections@),
                name@,
                i as int,
            ),
        decreases sections.len() - i,
    {
        let same = str_equal(sections[i].name.as_str(), name);
        if same {
            return Some(i);
        }
        i += 1;
    }
    None
}

/// Whether `a` and `b` hold the same text.
pub fn str_equal(a: &str, b: &str) -> (r: bool)
    ensures
        r == (a@ == b@),
{
    let x = String::from_str(a);
    let y = String::from_str(b);
    x == y
}

/// The section that bytes go to: the current one, unless there is none or
/// it is label-only.
pub open spec fn writable_section(st: StateView) -> Result<int, AsmErrorView> {
    match st.current {
        None => Err(plain(ErrorKind::NotInSection)),
        Some(name) => match find_section(st.sections, name) {
            None => Err(plain(ErrorKind::NotInSection)),
            Some(k) => if st.sections[k].label_only {
                Err(failure(ErrorKind::SectionLabelOnly, name))
            } else {
                Ok(k)
            },
        },
    }
}

/// The state after `bytes` went to the current section: they stand at its
/// cursor, and the cursor and the current address have moved behind them.
pub open spec fn emit_bytes(st: StateView, bytes: Seq<u8>) -> Result<StateView, AsmErrorView> {
    match writable_section(st) {
        Err(e) => Err(e),
        Ok(k) => if st.address + bytes.len() > u64::MAX {
            Err(plain(ErrorKind::AddressOverflow))
        } else if !st.sections[k].room(bytes.len()) {
            Err(failure(ErrorKind::SectionFull, st.sections[k].name))
        } else {
            Ok(
                StateView {
                    sections: st.sections.update(k, st.sections[k].write(bytes)),
                    address: (st.address + bytes.len()) as u64,
                    ..st
                },
            )
        },
    }
}

/// Whether `spec` is an error and `r` stands for it, or `spec` is a state,
/// `r` is `Ok` and the state is `after`.
pub open spec fn step_is(
    r: Result<(), AsmError>,
    after: StateView,
    spec: Result<StateView, AsmErrorView>,
) -> bool {
    match spec {
        Ok(st) => r is Ok && after == st,
        Err(e) => r matches Err(x) && x@ == e,
    }
}

/// The index of the section that bytes go to.
pub fn expect_in_w_sec(state: &State) -> (r: Result<usize, AsmError>)
    requires
        state@.wf(),
    ensures
        match writable_section(state@) {
            Ok(k) => r == Ok::<usize, AsmError>(k as usize) && 0 <= k < state.sections.len(),
            Err(e) => r matches Err(x) && x@ == e,
        },
{
    match &state.current_section_name {
        None => Err(AsmError::plain(ErrorKind::NotInSection)),
        Some(name) => match state.section_index(name.as_str()) {
            None => Err(AsmError::plain(ErrorKind::NotInSection)),
            Some(k) => if state.sections[k].label_only {
                Err(AsmError::with(ErrorKind::SectionLabelOnly, name.as_str()))
            } else {
                Ok(k)
            },
        },
    }
}

/// Whether the current section exists.
pub fn expect_in_section(state: &State) -> (r: Result<(), AsmError>)
    ensures
        state.current_section_name is Some ==> r is Ok,
        state.current_section_name is None ==> (r matches Err(e) && e@ == plain(
            ErrorKind::NotInSection,
        )),
{
    if state.current_section_name.is_none() {
        Err(AsmError::plain(ErrorKind::NotInSection))
    } else {
        Ok(())
    }
}

/// Checks that `n` bytes can go to the current section, and gives its index.
pub fn expect_room(state: &State, n: u64) -> (r: Result<usize, AsmError>)
    requires
        state@.wf(),
    ensures
        match writable_section(state@) {
            Err(e) => r matches Err(x) && x@ == e,
            Ok(k) => if state@.address + n > u64::MAX {
                r matches Err(x) && x@ == plain(ErrorKind::AddressOverflow)
            } else if !state@.sections[k].room(n as nat) {
                r matches Err(x) && x@ == failure(ErrorKind::SectionFull, state@.sections[k].name)
            } else {
                r == Ok::<usize, AsmError>(k as usize) && 0 <= k < state.sections.len()
                    && state@.sections[k].mem_ptr + n <= usize::MAX
            },
        },
{
    let k = expect_in_w_sec(state)?;
    if n > u64::MAX - state.current_section_address.0 {
        return Err(AsmError::plain(ErrorKind::AddressOverflow));
    }
    let sec = &state.sections[k];
    assert(sec@ == state@.sections[k as int]);
    assert(sec@.wf());
    let limit: usize = match sec.length {
        Some(_) => sec.memory.mem.len(),
        None => isize::MAX as usize,
    };
    if sec.memory.mem_ptr > limit || n > (limit - sec.memory.mem_ptr) as u64 {
        return Err(AsmError::with(ErrorKind::SectionFull, sec.name.as_str()));
    }
    Ok(k)
}

/// Sends `bytes` to the current section.
pub fn emit(state: &mut State, bytes: &Vec<u8>) -> (r: Result<(), AsmError>)
    requires
        old(state)@.wf(),
    ensures
        step_is(r, final(state)@, emit_bytes(old(state)@, bytes@)),
        r is Err ==> final(state)@ == old(state)@,
        final(state)@.wf(),
{
    let n = bytes.len() as u64;
    let k = expect_room(state, n)?;
    state.sections[k].write_bytes(bytes);
    state.current_section_address.add_bytes(n);
    assert(state@.sections =~= old(state)@.sections.update(
        k as int,
        old(state)@.sections[k as int].write(bytes@),
    ));
    proof {
        lemma_write_keeps_wf(old(state)@, k as int, bytes@, state@);
    }
    Ok(())
}

/// Sends `n` zero bytes to the current section.
pub fn emit_zeros(state: &mut State, n: u64) -> (r: Result<(), AsmError>)
    requires
        old(state)@.wf(),
    ensures
        step_is(r, final(state)@, emit_bytes(old(state)@, zeros(n as nat))),
        r is Err ==> final(state)@ == old(state)@,
        final(state)@.wf(),
{
    let k = expect_room(state, n)?;
    state.sections[k].write_zeros(n as usize);
    state.current_section_address.add_bytes(n);
    assert(state@.sections =~= old(state)@.sections.update(
        k as int,
        old(state)@.sections[k as int].write(zeros(n as nat)),
    ));
    proof {
        lemma_write_keeps_wf(old(state)@, k as int, zeros(n as nat), state@);
    }
    Ok(())
}

} // verus!
