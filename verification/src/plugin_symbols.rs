//! What a linker plugin is told about symbols.
use crate::bytes::{append_bytes, bytes_equal};
use crate::hash_maps::NameMap;
use crate::plugin_protocol::Status;
use crate::symbol_id::{SymbolId, SymbolIdRange};
use crate::symbol_resolution::Visibility;
use crate::value_flags::ValueFlags;
use vstd::bytes::*;
use vstd::prelude::*;
use vstd::utf8::*;

verus! {

/// How a plugin describes a symbol.
#[derive(Clone, Copy, Debug, PartialEq, Eq, Structural)]
pub enum SymbolKind {
    Def,
    WeakDef,
    Undef,
    WeakUndef,
    Common,
}

/// What became of a symbol.
#[derive(Clone, Copy, Debug, PartialEq, Eq, Structural)]
pub enum PluginSymbolResolution {
    Unknown,
    /// Nothing defines it.
    Undef,
    /// The plugin's definition is used, and not only by intermediate code.
    PrevailingDef,
    /// The plugin's definition is used by intermediate code only.
    PrevailingDefIronly,
    /// A definition in an object is used in place of the plugin's.
    PreemptedReg,
    /// Another definition in intermediate code is used in place of this one.
    PreemptedIr,
    /// Intermediate code defines it.
    ResolvedIr,
    /// An object defines it.
    ResolvedExec,
    /// A shared object defines it.
    ResolvedDyn,
    /// The plugin's definition is used by intermediate code, and is exported.
    PrevailingDefIronlyExp,
}

/// A symbol of a file that a plugin has claimed.
#[derive(Clone, Copy, Debug)]
pub struct PluginSymbol<'data> {
    pub name: &'data [u8],
    pub version: Option<&'data [u8]>,
    pub visibility: Visibility,
    pub kind: Option<SymbolKind>,
    pub size: u64,
}

/// The file that defines a symbol.
#[derive(Clone, Copy, Debug, PartialEq, Eq, Structural)]
pub enum DefiningFile {
    /// A file of intermediate code.
    LtoInput,
    Object { is_dynamic: bool },
    Other,
}

impl SymbolKind {
    /// The kind with the given number.
    pub open spec fn of_raw(raw: i8) -> Option<SymbolKind> {
        if raw == 0 {
            Some(SymbolKind::Def)
        } else if raw == 1 {
            Some(SymbolKind::WeakDef)
        } else if raw == 2 {
            Some(SymbolKind::Undef)
        } else if raw == 3 {
            Some(SymbolKind::WeakUndef)
        } else if raw == 4 {
            Some(SymbolKind::Common)
        } else {
            None
        }
    }

    pub fn from_raw(raw: i8) -> (kind: Option<SymbolKind>)
        ensures
            kind == SymbolKind::of_raw(raw),
    {
        if raw == 0 {
            Some(SymbolKind::Def)
        } else if raw == 1 {
            Some(SymbolKind::WeakDef)
        } else if raw == 2 {
            Some(SymbolKind::Undef)
        } else if raw == 3 {
            Some(SymbolKind::WeakUndef)
        } else if raw == 4 {
            Some(SymbolKind::Common)
        } else {
            None
        }
    }

    pub open spec fn defines(self) -> bool {
        self is Def || self is WeakDef || self is Common
    }

    /// Whether the file defines the symbol.
    pub fn is_definition(self) -> (definition: bool)
        ensures
            definition == self.defines(),
    {
        match self {
            SymbolKind::Def | SymbolKind::WeakDef | SymbolKind::Common => true,
            SymbolKind::Undef | SymbolKind::WeakUndef => false,
        }
    }
}

/// Whether a symbol of the given kind is not defined by its file. Kinds that are not known are not
/// definitions.
pub open spec fn not_defined(kind: Option<SymbolKind>) -> bool {
    !(kind matches Some(kind) && kind.defines())
}

/// Whether a symbol of the given kind is not defined by its file.
pub fn is_undefined(kind: Option<SymbolKind>) -> (undefined: bool)
    ensures
        undefined == not_defined(kind),
{
    match kind {
        Some(kind) => !kind.is_definition(),
        None => true,
    }
}

impl<'data> PluginSymbol<'data> {
    /// Whether the file defines the symbol.
    pub fn is_definition(&self) -> (definition: bool)
        ensures
            definition == !not_defined(self.kind),
    {
        !is_undefined(self.kind)
    }
}

/// Whether a name is one that references are redirected for.
pub open spec fn is_listed(names: Seq<&[u8]>, name: Seq<u8>) -> bool {
    exists|i: int| 0 <= i < names.len() && (#[trigger] names[i])@ == name
}

/// Whether a name is one that references are redirected for.
pub fn is_wrapped_name(wrap_names: &Vec<&[u8]>, name: &[u8]) -> (wrapped: bool)
    ensures
        wrapped == is_listed(wrap_names@, name@),
{
    let mut i: usize = 0;
    while i < wrap_names.len()
        invariant
            i <= wrap_names@.len(),
            forall|k: int| 0 <= k < i ==> (#[trigger] wrap_names@[k])@ != name@,
        decreases wrap_names@.len() - i,
    {
        if bytes_equal(wrap_names[i], name) {
            assert(wrap_names@[i as int]@ == name@);
            return true;
        }
        i = i + 1;
    }
    false
}

/// The prefix of names for what a name stood for before references were redirected: `__real_`.
pub open spec fn real_prefix() -> Seq<u8> {
    seq![0x5fu8, 0x5f, 0x72, 0x65, 0x61, 0x6c, 0x5f]
}

/// The bytes of the text that `String::from_utf8_lossy` makes of bytes.
pub uninterp spec fn lossy_utf8(bytes: Seq<u8>) -> Seq<u8>;

/// Calls `String::from_utf8_lossy`, which returns the text that the bytes encode, with a
/// replacement character in the place of what is not valid UTF-8.
#[verifier::external_body]
fn std_from_utf8_lossy(bytes: &[u8]) -> (text: Vec<u8>)
    ensures
        text@ == lossy_utf8(bytes@),
        valid_utf8(bytes@) ==> text@ == bytes@,
{
    String::from_utf8_lossy(bytes).into_owned().into_bytes()
}

/// The bytes of a text. What is not valid UTF-8 is replaced.
pub fn to_text(bytes: &[u8]) -> (text: Vec<u8>)
    ensures
        text@ == lossy_utf8(bytes@),
        valid_utf8(bytes@) ==> text@ == bytes@,
{
    std_from_utf8_lossy(bytes)
}

/// The name for what a name stood for before references were redirected.
pub fn real_name(name: &[u8]) -> (full_name: Vec<u8>)
    ensures
        full_name@ == real_prefix() + lossy_utf8(name@),
        valid_utf8(name@) ==> full_name@ == real_prefix() + name@,
{
    let mut full_name: Vec<u8> = Vec::new();
    let prefix: [u8; 7] = [0x5f, 0x5f, 0x72, 0x65, 0x61, 0x6c, 0x5f];
    let text: Vec<u8> = to_text(name);
    append_bytes(&mut full_name, prefix.as_slice());
    append_bytes(&mut full_name, text.as_slice());
    assert(full_name@ =~= real_prefix() + lossy_utf8(name@));
    full_name
}

/// A symbol that a plugin asks about.
#[derive(Clone, Copy, Debug)]
pub struct AskedSymbol<'data> {
    pub name: &'data [u8],
    /// The version that stands in the name as the plugin gave it.
    pub own_version: Option<&'data [u8]>,
    /// The version that the plugin gave apart from the name.
    pub version: Option<&'data [u8]>,
    pub kind: Option<SymbolKind>,
}

impl<'data> AskedSymbol<'data> {
    /// The version that counts: the one that was given apart from the name, and otherwise the one
    /// in the name.
    pub open spec fn spec_effective_version(self) -> Option<&'data [u8]> {
        match self.version {
            Some(version) => Some(version),
            None => self.own_version,
        }
    }

    /// The version that counts: the one that was given apart from the name, and otherwise the one
    /// in the name.
    pub fn effective_version(self) -> (version: Option<&'data [u8]>)
        ensures
            version == self.spec_effective_version(),
    {
        match self.version {
            Some(version) => Some(version),
            None => self.own_version,
        }
    }
}

/// The key of a name with a version: the length of the name, the name and the version.
pub open spec fn versioned_key(name: Seq<u8>, version: Seq<u8>) -> Seq<u8> {
    spec_u64_to_le_bytes(name.len() as u64) + name + version
}

/// Names with versions that differ in either have different keys.
pub proof fn lemma_versioned_keys_differ(
    name: Seq<u8>,
    version: Seq<u8>,
    other_name: Seq<u8>,
    other_version: Seq<u8>,
)
    requires
        name.len() <= u64::MAX,
        other_name.len() <= u64::MAX,
    ensures
        versioned_key(name, version) == versioned_key(other_name, other_version) <==> name
            == other_name && version == other_version,
{
    let key = versioned_key(name, version);
    let other_key = versioned_key(other_name, other_version);
    if key == other_key {
        let length = name.len() as u64;
        let other_length = other_name.len() as u64;
        lemma_auto_spec_u64_to_from_le_bytes();
        assert(spec_u64_to_le_bytes(length).len() == 8);
        assert(spec_u64_to_le_bytes(other_length).len() == 8);
        assert(spec_u64_to_le_bytes(length) =~= key.take(8));
        assert(spec_u64_to_le_bytes(other_length) =~= other_key.take(8));
        assert(spec_u64_from_le_bytes(spec_u64_to_le_bytes(length)) == length);
        assert(spec_u64_from_le_bytes(spec_u64_to_le_bytes(other_length)) == other_length);
        let end = 8 + name.len();
        assert(name =~= key.subrange(8, end as int));
        assert(other_name =~= other_key.subrange(8, end as int));
        assert(version =~= key.skip(end as int));
        assert(other_version =~= other_key.skip(end as int));
    }
}

fn key_of(name: &[u8], version: &[u8]) -> (key: Vec<u8>)
    ensures
        key@ == versioned_key(name@, version@),
{
    let mut key: Vec<u8> = u64_to_le_bytes(name.len() as u64);
    append_bytes(&mut key, name);
    append_bytes(&mut key, version);
    key
}

/// Notes the symbol of a name with a version.
pub fn insert_versioned(names: &mut NameMap, name: &[u8], version: &[u8], id: SymbolId)
    ensures
        final(names)@ == old(names)@.insert(versioned_key(name@, version@), id.0 as u64),
{
    names.insert(key_of(name, version), id.0 as u64);
}

/// What is known about symbols.
pub struct KnownSymbols<'a> {
    /// The symbols of names without versions.
    pub names: &'a NameMap,
    /// The symbols of names with versions, by the keys of both.
    pub versioned: &'a NameMap,
    /// What each symbol is defined by.
    pub definitions: &'a Vec<SymbolId>,
    pub flags: &'a Vec<ValueFlags>,
    /// The files of the symbols.
    pub files: &'a Vec<DefiningFile>,
    /// The names that references are redirected for.
    pub wrap_names: &'a Vec<&'a [u8]>,
}

impl<'a> KnownSymbols<'a> {
    pub open spec fn wf(&self) -> bool {
        &&& self.flags@.len() == self.definitions@.len()
        &&& self.files@.len() == self.definitions@.len()
        &&& self.definitions@.len() > 0
        &&& forall|name: Seq<u8>|
            #[trigger] self.names@.contains_key(name) ==> self.names@[name]
                < self.definitions@.len()
        &&& forall|key: Seq<u8>|
            #[trigger] self.versioned@.contains_key(key) ==> self.versioned@[key]
                < self.definitions@.len()
        &&& forall|i: int|
            0 <= i < self.definitions@.len() ==> (#[trigger] self.definitions@[i]).0
                < self.definitions@.len()
    }

    /// What defines a name without a version.
    pub open spec fn definition_of(&self, name: Seq<u8>) -> Option<SymbolId> {
        if self.names@.contains_key(name) {
            Some(self.definitions@[self.names@[name] as int])
        } else {
            None
        }
    }

    /// What defines a name with a version.
    pub open spec fn versioned_definition_of(&self, name: Seq<u8>, version: Seq<u8>) -> Option<
        SymbolId,
    > {
        if self.versioned@.contains_key(versioned_key(name, version)) {
            Some(self.definitions@[self.versioned@[versioned_key(name, version)] as int])
        } else {
            None
        }
    }

    /// What defines a symbol that a plugin asks about. For names that references are redirected
    /// for, it is what defined them before.
    pub open spec fn asked_definition(&self, symbol: AskedSymbol) -> Option<SymbolId> {
        if is_listed(self.wrap_names@, symbol.name@) {
            self.definition_of(real_prefix() + lossy_utf8(symbol.name@))
        } else {
            match symbol.spec_effective_version() {
                Some(version) => self.versioned_definition_of(symbol.name@, version@),
                None => self.definition_of(symbol.name@),
            }
        }
    }

    /// What a plugin is told about a symbol.
    pub open spec fn answer(&self, symbol: AskedSymbol, range: SymbolIdRange) -> PluginSymbolResolution {
        let definition = self.asked_definition(symbol);
        let index = match definition {
            Some(id) => id.0 as int,
            None => 0,
        };
        told(
            definition,
            symbol.kind,
            is_listed(self.wrap_names@, symbol.name@),
            range,
            self.flags@[index],
            self.files@[index],
        )
    }

    fn definition(&self, name: &[u8]) -> (definition: Option<SymbolId>)
        requires
            self.wf(),
        ensures
            definition == self.definition_of(name@),
    {
        match self.names.get(name) {
            Some(id) => {
                let count: usize = self.definitions.len();
                assert(id < count);
                Some(self.definitions[id as usize])
            },
            None => None,
        }
    }

    fn versioned_definition(&self, name: &[u8], version: &[u8]) -> (definition: Option<SymbolId>)
        requires
            self.wf(),
        ensures
            definition == self.versioned_definition_of(name@, version@),
    {
        let key: Vec<u8> = key_of(name, version);
        match self.versioned.get(key.as_slice()) {
            Some(id) => {
                let count: usize = self.definitions.len();
                assert(id < count);
                Some(self.definitions[id as usize])
            },
            None => None,
        }
    }

    /// What a plugin is told about a symbol. `range` holds the symbols of the plugin's file.
    pub fn symbol_answer<'data>(&self, symbol: AskedSymbol<'data>, range: SymbolIdRange) -> (answer:
        PluginSymbolResolution)
        requires
            self.wf(),
            range.wf(),
        ensures
            answer == self.answer(symbol, range),
    {
        let is_wrapped: bool = is_wrapped_name(self.wrap_names, symbol.name);
        let definition: Option<SymbolId> = if is_wrapped {
            let full_name: Vec<u8> = real_name(symbol.name);
            self.definition(full_name.as_slice())
        } else {
            match symbol.effective_version() {
                Some(version) => self.versioned_definition(symbol.name, version),
                None => self.definition(symbol.name),
            }
        };
        let index: usize = match definition {
            Some(id) => id.as_usize(),
            None => 0,
        };
        get_symbol_resolution(
            definition,
            symbol.kind,
            is_wrapped,
            range,
            self.flags[index],
            self.files[index],
        )
    }
}

/// Answers a plugin that asks about the symbols of one of its files. `range` holds the symbols of
/// the file, or is `None` if the file is not used. The numbers of the answers are returned with the
/// status.
pub fn get_symbols_v3<'a, 'data>(
    known: &KnownSymbols<'a>,
    range: Option<SymbolIdRange>,
    symbols: &Vec<AskedSymbol<'data>>,
) -> (answers: (Status, Vec<i32>))
    requires
        known.wf(),
        range matches Some(range) ==> range.wf(),
    ensures
        answers.0 == (if range is Some {
            Status::Success
        } else {
            Status::NoSyms
        }),
        answers.1@.len() == (if range is Some {
            symbols@.len()
        } else {
            0
        }),
        range matches Some(range) ==> forall|i: int|
            0 <= i < symbols@.len() ==> #[trigger] answers.1@[i] == known.answer(
                symbols@[i],
                range,
            ).number(),
{
    let mut numbers: Vec<i32> = Vec::new();
    let range: SymbolIdRange = match range {
        Some(range) => range,
        None => {
            return (Status::NoSyms, numbers);
        },
    };
    let mut i: usize = 0;
    while i < symbols.len()
        invariant
            i <= symbols@.len(),
            known.wf(),
            range.wf(),
            numbers@.len() == i,
            forall|k: int|
                0 <= k < i ==> #[trigger] numbers@[k] == known.answer(symbols@[k], range).number(),
        decreases symbols@.len() - i,
    {
        let answer: PluginSymbolResolution = known.symbol_answer(symbols[i], range);
        numbers.push(answer.as_raw());
        i = i + 1;
    }
    (Status::Success, numbers)
}

/// What a plugin is told about a symbol. Symbols whose references are redirected are always used by
/// something that is not intermediate code.
pub open spec fn told(
    definition: Option<SymbolId>,
    kind: Option<SymbolKind>,
    is_wrapped: bool,
    range: SymbolIdRange,
    flags: ValueFlags,
    file: DefiningFile,
) -> PluginSymbolResolution {
    match definition {
        None => PluginSymbolResolution::Undef,
        Some(id) => if id.0 == 0 {
            PluginSymbolResolution::Undef
        } else if not_defined(kind) {
            if is_wrapped {
                PluginSymbolResolution::ResolvedExec
            } else {
                match file {
                    DefiningFile::LtoInput => PluginSymbolResolution::ResolvedIr,
                    DefiningFile::Object { is_dynamic } => if is_dynamic {
                        PluginSymbolResolution::ResolvedDyn
                    } else {
                        PluginSymbolResolution::ResolvedExec
                    },
                    DefiningFile::Other => PluginSymbolResolution::ResolvedExec,
                }
            }
        } else if range.spec_contains(id) {
            if flags.has_non_ir_ref {
                PluginSymbolResolution::PrevailingDef
            } else if flags.export_dynamic {
                PluginSymbolResolution::PrevailingDefIronlyExp
            } else {
                PluginSymbolResolution::PrevailingDefIronly
            }
        } else if is_wrapped {
            PluginSymbolResolution::PreemptedReg
        } else {
            match file {
                DefiningFile::LtoInput => PluginSymbolResolution::PreemptedIr,
                _ => PluginSymbolResolution::PreemptedReg,
            }
        },
    }
}

/// What a plugin is told about a symbol. `definition` is what defines the name of the symbol, or
/// what defined it before references were redirected; `flags` and `file` are those of the
/// definition, and `range` holds the symbols of the plugin's file.
pub fn get_symbol_resolution(
    definition: Option<SymbolId>,
    kind: Option<SymbolKind>,
    is_wrapped: bool,
    range: SymbolIdRange,
    flags: ValueFlags,
    file: DefiningFile,
) -> (resolution: PluginSymbolResolution)
    requires
        range.wf(),
    ensures
        resolution == told(definition, kind, is_wrapped, range, flags, file),
{
    let id: SymbolId = match definition {
        Some(id) => id,
        None => {
            return PluginSymbolResolution::Undef;
        },
    };
    if id.is_undefined() {
        PluginSymbolResolution::Undef
    } else if is_undefined(kind) {
        if is_wrapped {
            return PluginSymbolResolution::ResolvedExec;
        }
        match file {
            DefiningFile::LtoInput => PluginSymbolResolution::ResolvedIr,
            DefiningFile::Object { is_dynamic } => {
                if is_dynamic {
                    PluginSymbolResolution::ResolvedDyn
                } else {
                    PluginSymbolResolution::ResolvedExec
                }
            },
            DefiningFile::Other => PluginSymbolResolution::ResolvedExec,
        }
    } else if range.contains(id) {
        if flags.has_non_ir_ref {
            PluginSymbolResolution::PrevailingDef
        } else if flags.export_dynamic {
            PluginSymbolResolution::PrevailingDefIronlyExp
        } else {
            PluginSymbolResolution::PrevailingDefIronly
        }
    } else if is_wrapped {
        PluginSymbolResolution::PreemptedReg
    } else {
        match file {
            DefiningFile::LtoInput => PluginSymbolResolution::PreemptedIr,
            _ => PluginSymbolResolution::PreemptedReg,
        }
    }
}

/// A definition that something other than intermediate code refers to is never reported as one that
/// the plugin may remove.
pub proof fn lemma_referenced_definitions_stay(
    definition: Option<SymbolId>,
    kind: Option<SymbolKind>,
    is_wrapped: bool,
    range: SymbolIdRange,
    flags: ValueFlags,
    file: DefiningFile,
)
    requires
        flags.has_non_ir_ref,
    ensures
        !(told(definition, kind, is_wrapped, range, flags, file) is PrevailingDefIronly),
        !(told(definition, kind, is_wrapped, range, flags, file) is PrevailingDefIronlyExp),
{
}

impl PluginSymbolResolution {
    pub open spec fn number(self) -> int {
        match self {
            PluginSymbolResolution::Unknown => 0,
            PluginSymbolResolution::Undef => 1,
            PluginSymbolResolution::PrevailingDef => 2,
            PluginSymbolResolution::PrevailingDefIronly => 3,
            PluginSymbolResolution::PreemptedReg => 4,
            PluginSymbolResolution::PreemptedIr => 5,
            PluginSymbolResolution::ResolvedIr => 6,
            PluginSymbolResolution::ResolvedExec => 7,
            PluginSymbolResolution::ResolvedDyn => 8,
            PluginSymbolResolution::PrevailingDefIronlyExp => 9,
        }
    }

    /// The number that plugins know the resolution by.
    pub fn as_raw(self) -> (raw: i32)
        ensures
            raw == self.number(),
    {
        match self {
            PluginSymbolResolution::Unknown => 0,
            PluginSymbolResolution::Undef => 1,
            PluginSymbolResolution::PrevailingDef => 2,
            PluginSymbolResolution::PrevailingDefIronly => 3,
            PluginSymbolResolution::PreemptedReg => 4,
            PluginSymbolResolution::PreemptedIr => 5,
            PluginSymbolResolution::ResolvedIr => 6,
            PluginSymbolResolution::ResolvedExec => 7,
            PluginSymbolResolution::ResolvedDyn => 8,
            PluginSymbolResolution::PrevailingDefIronlyExp => 9,
        }
    }
}

/// A file that a plugin has claimed.
#[derive(Debug)]
pub struct LtoInput<'data> {
    pub symbol_id_range: SymbolIdRange,
    pub symbols: Vec<PluginSymbol<'data>>,
    /// The file is used only if something refers to it.
    pub archive_semantics: bool,
    pub whole_archive: bool,
    /// Symbols of the file still count. They do not once the plugin has compiled it.
    pub enabled: bool,
}

impl<'data> LtoInput<'data> {
    pub open spec fn wf(&self) -> bool {
        self.symbol_id_range.wf() && self.symbols@.len() == self.symbol_id_range.num_symbols
    }

    /// A file that a plugin has just claimed.
    pub fn new(
        symbol_id_range: SymbolIdRange,
        symbols: Vec<PluginSymbol<'data>>,
        archive_semantics: bool,
        whole_archive: bool,
    ) -> (input: LtoInput<'data>)
        ensures
            input == (LtoInput {
                symbol_id_range,
                symbols,
                archive_semantics,
                whole_archive,
                enabled: true,
            }),
    {
        LtoInput { symbol_id_range, symbols, archive_semantics, whole_archive, enabled: true }
    }

    pub open spec fn symbol(&self, id: SymbolId) -> PluginSymbol<'data> {
        self.symbols@[id.0 - self.symbol_id_range.start_symbol_id.0]
    }

    /// The name of a symbol.
    pub fn symbol_name(&self, symbol_id: SymbolId) -> (name: &'data [u8])
        requires
            self.wf(),
            self.symbol_id_range.spec_contains(symbol_id),
        ensures
            name == self.symbol(symbol_id).name,
    {
        self.symbols[self.symbol_id_range.id_to_offset(symbol_id)].name
    }

    /// The visibility of a symbol.
    pub fn symbol_visibility(&self, symbol_id: SymbolId) -> (visibility: Visibility)
        requires
            self.wf(),
            self.symbol_id_range.spec_contains(symbol_id),
        ensures
            visibility == self.symbol(symbol_id).visibility,
    {
        self.symbols[self.symbol_id_range.id_to_offset(symbol_id)].visibility
    }

    /// The symbols of the file and their IDs.
    pub fn symbols_iter(&self) -> (symbols: Vec<(SymbolId, PluginSymbol<'data>)>)
        requires
            self.wf(),
        ensures
            symbols@.len() == self.symbols@.len(),
            forall|i: int|
                0 <= i < symbols@.len() ==> #[trigger] symbols@[i] == (
                    self.symbol_id_range.id_at(i),
                    self.symbols@[i],
                ),
    {
        let mut symbols: Vec<(SymbolId, PluginSymbol<'data>)> = Vec::new();
        let mut i: usize = 0;
        while i < self.symbols.len()
            invariant
                i <= self.symbols@.len(),
                self.wf(),
                symbols@.len() == i,
                forall|k: int|
                    0 <= k < i ==> #[trigger] symbols@[k] == (
                        self.symbol_id_range.id_at(k),
                        self.symbols@[k],
                    ),
            decreases self.symbols@.len() - i,
        {
            symbols.push((self.symbol_id_range.offset_to_id(i), self.symbols[i]));
            i = i + 1;
        }
        symbols
    }

    /// Whether the file is used only if something refers to it.
    pub fn is_optional(&self) -> (optional: bool)
        ensures
            optional == (self.archive_semantics && !self.whole_archive),
    {
        self.archive_semantics && !self.whole_archive
    }
}

impl SymbolKind {
    pub open spec fn spec_name(self) -> Seq<char> {
        match self {
            SymbolKind::Def => "Def"@,
            SymbolKind::WeakDef => "WeakDef"@,
            SymbolKind::Undef => "Undef"@,
            SymbolKind::WeakUndef => "WeakUndef"@,
            SymbolKind::Common => "Common"@,
        }
    }

    /// What the kind is called.
    pub fn name(self) -> (name: &'static str)
        ensures
            name@ == self.spec_name(),
    {
        match self {
            SymbolKind::Def => "Def",
            SymbolKind::WeakDef => "WeakDef",
            SymbolKind::Undef => "Undef",
            SymbolKind::WeakUndef => "WeakUndef",
            SymbolKind::Common => "Common",
        }
    }
}

/// Whether names can be handed to a plugin, which is the case if they hold no zeros.
pub open spec fn hold_no_zeros(names: Seq<&[u8]>) -> bool {
    forall|i: int| 0 <= i < names.len() ==> !(#[trigger] names[i])@.contains(0u8)
}

fn holds_zero(name: &[u8]) -> (holds: bool)
    ensures
        holds == name@.contains(0u8),
{
    let mut i: usize = 0;
    while i < name.len()
        invariant
            i <= name@.len(),
            forall|k: int| 0 <= k < i ==> name@[k] != 0,
        decreases name@.len() - i,
    {
        if name[i] == 0 {
            assert(name@[i as int] == 0u8);
            return true;
        }
        i = i + 1;
    }
    false
}

/// Whether the names for which references are redirected can be handed to a plugin.
pub fn check_wrap_names(names: &Vec<&[u8]>) -> (valid: bool)
    ensures
        valid == hold_no_zeros(names@),
{
    let mut i: usize = 0;
    while i < names.len()
        invariant
            i <= names@.len(),
            forall|k: int| 0 <= k < i ==> !(#[trigger] names@[k])@.contains(0u8),
        decreases names@.len() - i,
    {
        if holds_zero(names[i]) {
            assert(names@[i as int]@.contains(0u8));
            return false;
        }
        i = i + 1;
    }
    true
}

} // verus!
