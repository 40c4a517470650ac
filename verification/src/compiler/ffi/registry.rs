//! The registry of foreign function implementations: which built-in
//! implementation a binding's `location` resolves to, and the system-call
//! numbers known per target.

use vstd::prelude::*;
use crate::text::{chars_of, chars_eq, eq_str, owned};
use crate::table::{keys_of, key_index, keys_distinct, table_map, table_insert, lemma_table_insert, lemma_key_index, find_key, lemma_table_len};
use crate::compiler::ffi::toml_data::{
    toml_parse, parse_toml, decode_toml, syscall_entries, syscall_entries_spec, nums_view, sys_view,
};

verus! {

/// The built-in implementations a location can resolve to.
#[derive(Debug, Clone, Copy, PartialEq, Eq, Structural)]
pub enum BuiltinImpl {
    Print,
    Println,
    Input,
    Sqrt,
    Pow,
    Sin,
    Cos,
    Abs,
    Floor,
    Ceil,
    Round,
    Len,
    Concat,
    Trim,
    Contains,
    ToLower,
    ToUpper,
    Replace,
    Chars,
    StartsWith,
    EndsWith,
    FromStr,
    ToString,
    Now,
    ReadFile,
    WriteFile,
    DeleteFile,
    CreateDir,
    DeleteDir,
}

/// The table of locations the runtime implements.
pub open spec fn location_impl(loc: Seq<char>) -> Option<BuiltinImpl> {
    if loc == "std::io::print"@ { Some(BuiltinImpl::Print) }
    else if loc == "std::io::println"@ { Some(BuiltinImpl::Println) }
    else if loc == "std::io::input"@ { Some(BuiltinImpl::Input) }
    else if loc == "std::f64::sqrt"@ { Some(BuiltinImpl::Sqrt) }
    else if loc == "std::f64::powf"@ { Some(BuiltinImpl::Pow) }
    else if loc == "std::f64::sin"@ { Some(BuiltinImpl::Sin) }
    else if loc == "std::f64::cos"@ { Some(BuiltinImpl::Cos) }
    else if loc == "std::f64::abs"@ { Some(BuiltinImpl::Abs) }
    else if loc == "std::f64::floor"@ { Some(BuiltinImpl::Floor) }
    else if loc == "std::f64::ceil"@ { Some(BuiltinImpl::Ceil) }
    else if loc == "std::f64::round"@ { Some(BuiltinImpl::Round) }
    else if loc == "std::string::String::len"@ { Some(BuiltinImpl::Len) }
    else if loc == "std::string::String::push_str"@ { Some(BuiltinImpl::Concat) }
    else if loc == "std::string::String::trim"@ { Some(BuiltinImpl::Trim) }
    else if loc == "std::string::String::contains"@ { Some(BuiltinImpl::Contains) }
    else if loc == "std::string::String::to_lowercase"@ { Some(BuiltinImpl::ToLower) }
    else if loc == "std::string::String::to_uppercase"@ { Some(BuiltinImpl::ToUpper) }
    else if loc == "std::string::String::replace"@ { Some(BuiltinImpl::Replace) }
    else if loc == "std::string::String::chars"@ { Some(BuiltinImpl::Chars) }
    else if loc == "std::string::String::starts_with"@ { Some(BuiltinImpl::StartsWith) }
    else if loc == "std::string::String::ends_with"@ { Some(BuiltinImpl::EndsWith) }
    else if loc == "std::str::FromStr::from_str"@ { Some(BuiltinImpl::FromStr) }
    else if loc == "std::string::ToString::to_string"@ { Some(BuiltinImpl::ToString) }
    else if loc == "std::time::SystemTime::now"@ { Some(BuiltinImpl::Now) }
    else if loc == "std::fs::read_to_string"@ { Some(BuiltinImpl::ReadFile) }
    else if loc == "std::fs::write"@ { Some(BuiltinImpl::WriteFile) }
    else if loc == "std::fs::remove_file"@ { Some(BuiltinImpl::DeleteFile) }
    else if loc == "std::fs::create_dir"@ { Some(BuiltinImpl::CreateDir) }
    else if loc == "std::fs::remove_dir"@ { Some(BuiltinImpl::DeleteDir) }
    else { None }
}

/// The implementation a binding's location resolves to, if the runtime has one.
pub fn resolve_location_to_impl(location: &str) -> (r: Option<BuiltinImpl>)
    ensures
        r == location_impl(location@),
{
    let l = chars_of(location);
    let s = l.as_slice();
    if eq_str(s, "std::io::print") { Some(BuiltinImpl::Print) }
    else if eq_str(s, "std::io::println") { Some(BuiltinImpl::Println) }
    else if eq_str(s, "std::io::input") { Some(BuiltinImpl::Input) }
    else if eq_str(s, "std::f64::sqrt") { Some(BuiltinImpl::Sqrt) }
    else if eq_str(s, "std::f64::powf") { Some(BuiltinImpl::Pow) }
    else if eq_str(s, "std::f64::sin") { Some(BuiltinImpl::Sin) }
    else if eq_str(s, "std::f64::cos") { Some(BuiltinImpl::Cos) }
    else if eq_str(s, "std::f64::abs") { Some(BuiltinImpl::Abs) }
    else if eq_str(s, "std::f64::floor") { Some(BuiltinImpl::Floor) }
    else if eq_str(s, "std::f64::ceil") { Some(BuiltinImpl::Ceil) }
    else if eq_str(s, "std::f64::round") { Some(BuiltinImpl::Round) }
    else if eq_str(s, "std::string::String::len") { Some(BuiltinImpl::Len) }
    else if eq_str(s, "std::string::String::push_str") { Some(BuiltinImpl::Concat) }
    else if eq_str(s, "std::string::String::trim") { Some(BuiltinImpl::Trim) }
    else if eq_str(s, "std::string::String::contains") { Some(BuiltinImpl::Contains) }
    else if eq_str(s, "std::string::String::to_lowercase") { Some(BuiltinImpl::ToLower) }
    else if eq_str(s, "std::string::String::to_uppercase") { Some(BuiltinImpl::ToUpper) }
    else if eq_str(s, "std::string::String::replace") { Some(BuiltinImpl::Replace) }
    else if eq_str(s, "std::string::String::chars") { Some(BuiltinImpl::Chars) }
    else if eq_str(s, "std::string::String::starts_with") { Some(BuiltinImpl::StartsWith) }
    else if eq_str(s, "std::string::String::ends_with") { Some(BuiltinImpl::EndsWith) }
    else if eq_str(s, "std::str::FromStr::from_str") { Some(BuiltinImpl::FromStr) }
    else if eq_str(s, "std::string::ToString::to_string") { Some(BuiltinImpl::ToString) }
    else if eq_str(s, "std::time::SystemTime::now") { Some(BuiltinImpl::Now) }
    else if eq_str(s, "std::fs::read_to_string") { Some(BuiltinImpl::ReadFile) }
    else if eq_str(s, "std::fs::write") { Some(BuiltinImpl::WriteFile) }
    else if eq_str(s, "std::fs::remove_file") { Some(BuiltinImpl::DeleteFile) }
    else if eq_str(s, "std::fs::create_dir") { Some(BuiltinImpl::CreateDir) }
    else if eq_str(s, "std::fs::remove_dir") { Some(BuiltinImpl::DeleteDir) }
    else { None }
}

// ---------------------------------------------------------------------------
// The registry

/// Maps binding locations to implementations, and targets to their
/// system-call numbers.
pub struct FunctionRegistry {
    functions: Vec<(String, BuiltinImpl)>,
    syscall_numbers: Vec<(String, Vec<(String, i64)>)>,
}

/// The system-call numbers of one target, by name.
pub open spec fn numbers_map(v: Seq<(String, i64)>) -> Map<Seq<char>, i64> {
    table_map(v)
}

/// Numbers by target, as plain pairs: the first pair with a target gives
/// its number.
pub open spec fn pairs_map(s: Seq<(Seq<char>, i64)>) -> Map<Seq<char>, i64> {
    Map::new(
        |k: Seq<char>| key_index(s.map_values(|e: (Seq<char>, i64)| e.0), k) is Some,
        |k: Seq<char>| s[key_index(s.map_values(|e: (Seq<char>, i64)| e.0), k)->0].1,
    )
}

/// The system-call table after registering the first `n` entries of `es` in
/// order, each replacing what its name had.
pub open spec fn apply_entries(
    m: Map<Seq<char>, Map<Seq<char>, i64>>,
    es: Seq<(Seq<char>, Seq<(Seq<char>, i64)>)>,
    n: int,
) -> Map<Seq<char>, Map<Seq<char>, i64>>
    decreases n,
{
    if n <= 0 || n > es.len() {
        m
    } else {
        apply_entries(m, es, n - 1).insert(es[n - 1].0, pairs_map(es[n - 1].1))
    }
}

proof fn lemma_numbers_map(v: Seq<(String, i64)>)
    ensures
        numbers_map(v) == pairs_map(nums_view(v)),
{
    let ks = nums_view(v).map_values(|e: (Seq<char>, i64)| e.0);
    assert(keys_of(v) =~= ks);
    assert forall|k: Seq<char>| #[trigger] numbers_map(v).contains_key(k) implies numbers_map(v)[k] == pairs_map(nums_view(v))[k] by {
        lemma_key_index(ks, k);
    }
    assert(numbers_map(v) =~= pairs_map(nums_view(v)));
}

impl FunctionRegistry {
    /// Locations and the implementations registered for them.
    pub closed spec fn functions_map(self) -> Map<Seq<char>, BuiltinImpl> {
        table_map(self.functions@)
    }

    /// Targets and their system-call numbers.
    pub closed spec fn syscalls_map(self) -> Map<Seq<char>, Map<Seq<char>, i64>> {
        table_map(self.syscall_numbers@).map_values(|v: Vec<(String, i64)>| numbers_map(v@))
    }

    /// No location and no target is registered twice.
    pub closed spec fn wf(self) -> bool {
        &&& keys_distinct(keys_of(self.functions@))
        &&& keys_distinct(keys_of(self.syscall_numbers@))
    }

    /// An empty registry.
    pub fn new() -> (r: Self)
        ensures
            r.wf(),
            r.functions_map() == Map::<Seq<char>, BuiltinImpl>::empty(),
            r.syscalls_map() == Map::<Seq<char>, Map<Seq<char>, i64>>::empty(),
    {
        let r = FunctionRegistry { functions: Vec::new(), syscall_numbers: Vec::new() };
        assert(r.functions_map() =~= Map::<Seq<char>, BuiltinImpl>::empty());
        assert(r.syscalls_map() =~= Map::<Seq<char>, Map<Seq<char>, i64>>::empty());
        r
    }

    /// Records the system-call numbers of `target`, replacing any it had.
    pub fn register_syscall_numbers(&mut self, target: String, numbers: Vec<(String, i64)>)
        requires
            old(self).wf(),
        ensures
            final(self).wf(),
            final(self).functions_map() == old(self).functions_map(),
            final(self).syscalls_map() == old(self).syscalls_map().insert(target@, numbers_map(numbers@)),
    {
        let ghost before = self.syscall_numbers@;
        match find_key(&self.syscall_numbers, target.as_str()) {
            Some(i) => {
                let key = self.syscall_numbers[i].0.clone();
                self.syscall_numbers.set(i, (key, numbers));
            }
            None => {
                self.syscall_numbers.push((target, numbers));
            }
        }
        proof {
            lemma_table_insert(before, target, numbers);
            assert(keys_of(self.syscall_numbers@) =~= keys_of(table_insert(before, target, numbers)));
            assert forall|k: Seq<char>| #![trigger key_index(keys_of(self.syscall_numbers@), k)]
                key_index(keys_of(self.syscall_numbers@), k) is Some
                    ==> self.syscall_numbers@[key_index(keys_of(self.syscall_numbers@), k)->0].1@
                        == table_insert(before, target, numbers)[key_index(keys_of(self.syscall_numbers@), k)->0].1@ by {
                lemma_key_index(keys_of(self.syscall_numbers@), k);
            }
            assert(self.syscalls_map() =~= table_map(before).insert(target@, numbers).map_values(
                |v: Vec<(String, i64)>| numbers_map(v@),
            ));
            assert(table_map(before).insert(target@, numbers).map_values(|v: Vec<(String, i64)>| numbers_map(v@))
                =~= table_map(before).map_values(|v: Vec<(String, i64)>| numbers_map(v@)).insert(target@, numbers_map(numbers@)));
        }
    }

    /// Registers the system calls that the TOML bindings text `text`
    /// declares (see `syscall_entries_spec`), in order, each replacing what
    /// its name had. Text that is not valid TOML is refused and changes
    /// nothing.
    pub fn load_syscalls_text(&mut self, text: &str) -> (r: Result<(), String>)
        requires
            old(self).wf(),
        ensures
            final(self).wf(),
            final(self).functions_map() == old(self).functions_map(),
            match toml_parse(text@) {
                Some(v) => r is Ok && final(self).syscalls_map() == apply_entries(
                    old(self).syscalls_map(), syscall_entries_spec(v), syscall_entries_spec(v).len() as int),
                None => r is Err && final(self).syscalls_map() == old(self).syscalls_map(),
            },
    {
        let toks = match parse_toml(text) {
            Ok(t) => t,
            Err(e) => return Err(e),
        };
        let doc = match decode_toml(&toks) {
            Some(d) => d,
            None => return Err(owned("malformed TOML document")),
        };
        let mut es = syscall_entries(&doc);
        let ghost full = sys_view(es@);
        let ghost m0 = self.syscalls_map();
        let ghost k: int = 0;
        while es.len() > 0
            invariant
                self.wf(),
                self.functions_map() == old(self).functions_map(),
                m0 == old(self).syscalls_map(),
                0 <= k <= full.len(),
                sys_view(es@) == full.subrange(k, full.len() as int),
                self.syscalls_map() == apply_entries(m0, full, k),
            decreases es@.len(),
        {
            let ghost before = es@;
            let (name, nums) = es.remove(0);
            proof {
                assert(sys_view(before).len() == before.len());
                assert(k < full.len());
                assert(sys_view(before)[0] == full.subrange(k, full.len() as int)[0]);
                assert(full[k] == sys_view(before)[0]);
                assert(es@ =~= before.subrange(1, before.len() as int));
                assert forall|j: int| 0 <= j < es@.len() implies #[trigger] sys_view(es@)[j] == full.subrange(k + 1, full.len() as int)[j] by {
                    assert(sys_view(before)[j + 1] == full.subrange(k, full.len() as int)[j + 1]);
                }
                assert(sys_view(es@) =~= full.subrange(k + 1, full.len() as int));
                lemma_numbers_map(nums@);
            }
            self.register_syscall_numbers(name, nums);
            proof {
                k = k + 1;
            }
        }
        Ok(())
    }

    /// The number of system call `name` on `target`, if known.
    pub fn get_syscall_number(&self, target: &str, name: &str) -> (r: Option<i64>)
        ensures
            r == (if self.syscalls_map().contains_key(target@) && self.syscalls_map()[target@].contains_key(name@) {
                Some(self.syscalls_map()[target@][name@])
            } else {
                None
            }),
    {
        match find_key(&self.syscall_numbers, target) {
            None => None,
            Some(i) => {
                let nums = &self.syscall_numbers[i].1;
                match find_key(nums, name) {
                    None => None,
                    Some(j) => Some(nums[j].1),
                }
            }
        }
    }

    /// Registers `func` for `location`, replacing any earlier registration.
    pub fn register(&mut self, location: String, func: BuiltinImpl)
        requires
            old(self).wf(),
        ensures
            final(self).wf(),
            final(self).functions_map() == old(self).functions_map().insert(location@, func),
            final(self).syscalls_map() == old(self).syscalls_map(),
    {
        let ghost before = self.functions@;
        match find_key(&self.functions, location.as_str()) {
            Some(i) => {
                let key = self.functions[i].0.clone();
                self.functions.set(i, (key, func));
            }
            None => {
                self.functions.push((location, func));
            }
        }
        proof {
            lemma_table_insert(before, location, func);
            assert(keys_of(self.functions@) =~= keys_of(table_insert(before, location, func)));
            assert(self.functions@ =~= table_insert(before, location, func).map_values(|e: (String, BuiltinImpl)| e)) by {
                assert forall|i: int| 0 <= i < self.functions@.len() implies self.functions@[i].1 == table_insert(before, location, func)[i].1
                    && self.functions@[i].0@ == table_insert(before, location, func)[i].0@ by {}
            }
            assert(self.functions_map() =~= table_map(table_insert(before, location, func)));
        }
    }

    /// The implementation registered for `location`.
    pub fn get(&self, location: &str) -> (r: Option<BuiltinImpl>)
        ensures
            r == (if self.functions_map().contains_key(location@) { Some(self.functions_map()[location@]) } else { None }),
    {
        match find_key(&self.functions, location) {
            None => None,
            Some(i) => Some(self.functions[i].1),
        }
    }

    /// Whether an implementation is registered for `location`.
    pub fn contains(&self, location: &str) -> (b: bool)
        ensures
            b == self.functions_map().contains_key(location@),
    {
        find_key(&self.functions, location).is_some()
    }

    /// The registrations, each location once.
    pub fn iter(&self) -> (v: Vec<(String, BuiltinImpl)>)
        requires
            self.wf(),
        ensures
            keys_distinct(keys_of(v@)),
            table_map(v@) == self.functions_map(),
            v@.len() == self.functions_map().len(),
    {
        let mut v: Vec<(String, BuiltinImpl)> = Vec::new();
        let mut i: usize = 0;
        while i < self.functions.len()
            invariant
                i <= self.functions@.len(),
                v@.len() == i,
                forall|j: int| 0 <= j < i ==> (#[trigger] v@[j]).0@ == self.functions@[j].0@ && v@[j].1 == self.functions@[j].1,
            decreases self.functions@.len() - i,
        {
            v.push((self.functions[i].0.clone(), self.functions[i].1));
            i = i + 1;
        }
        proof {
            assert(keys_of(v@) =~= keys_of(self.functions@));
            assert forall|k: Seq<char>| #[trigger] key_index(keys_of(v@), k) is Some
                implies v@[key_index(keys_of(v@), k)->0].1 == self.functions@[key_index(keys_of(v@), k)->0].1 by {
                lemma_key_index(keys_of(v@), k);
                let j = key_index(keys_of(v@), k)->0;
                assert(v@[j].1 == self.functions@[j].1);
            }
            assert(table_map(v@) =~= table_map(self.functions@));
            lemma_table_len(self.functions@);
        }
        v
    }

    /// Registers each location the runtime implements and returns those it
    /// does not, in order.
    pub fn register_locations(&mut self, locations: &Vec<String>) -> (unresolved: Vec<String>)
        requires
            old(self).wf(),
        ensures
            final(self).wf(),
            final(self).syscalls_map() == old(self).syscalls_map(),
            final(self).functions_map() == registered_locations(old(self).functions_map(), strings(locations@)),
            strings(unresolved@) == strings(locations@).filter(|l: Seq<char>| location_impl(l) is None),
    {
        let ghost ls = strings(locations@);
        let mut unresolved: Vec<String> = Vec::new();
        let mut i: usize = 0;
        let ghost m0 = self.functions_map();
        while i < locations.len()
            invariant
                i <= locations@.len(),
                ls == strings(locations@),
                self.wf(),
                self.syscalls_map() == old(self).syscalls_map(),
                m0 == old(self).functions_map(),
                self.functions_map() == registered_locations(m0, ls.subrange(0, i as int)),
                strings(unresolved@) == ls.subrange(0, i as int).filter(|l: Seq<char>| location_impl(l) is None),
            decreases locations@.len() - i,
        {
            let loc = &locations[i];
            proof {
                assert(ls.subrange(0, i + 1).drop_last() =~= ls.subrange(0, i as int));
                assert(ls.subrange(0, i + 1).last() == loc@);
                reveal(Seq::filter);
            }
            match resolve_location_to_impl(loc.as_str()) {
                Some(f) => {
                    self.register(loc.clone(), f);
                }
                None => {
                    let ghost before = unresolved@;
                    unresolved.push(loc.clone());
                    assert(strings(unresolved@) =~= strings(before).push(loc@));
                }
            }
            i = i + 1;
        }
        assert(ls.subrange(0, locations@.len() as int) =~= ls);
        unresolved
    }

    /// Registers `func` for the location of a binding.
    pub fn register_from_binding(&mut self, location: &str, func: BuiltinImpl)
        requires
            old(self).wf(),
        ensures
            final(self).wf(),
            final(self).functions_map() == old(self).functions_map().insert(location@, func),
            final(self).syscalls_map() == old(self).syscalls_map(),
    {
        self.register(owned(location), func);
    }
}

pub open spec fn strings(v: Seq<String>) -> Seq<Seq<char>> {
    v.map_values(|s: String| s@)
}

/// The map after registering, in order, each location the runtime implements.
pub open spec fn registered_locations(m: Map<Seq<char>, BuiltinImpl>, ls: Seq<Seq<char>>) -> Map<Seq<char>, BuiltinImpl>
    decreases ls.len(),
{
    if ls.len() == 0 {
        m
    } else {
        let prev = registered_locations(m, ls.drop_last());
        match location_impl(ls.last()) {
            Some(f) => prev.insert(ls.last(), f),
            None => prev,
        }
    }
}

/// Registering a location and looking it up gives what was registered.
pub proof fn law_register_then_get(r: FunctionRegistry, after: FunctionRegistry, location: Seq<char>, func: BuiltinImpl)
    requires
        after.functions_map() == r.functions_map().insert(location, func),
    ensures
        after.functions_map().contains_key(location),
        after.functions_map()[location] == func,
{
}

/// Registering a location leaves every other location as it was.
pub proof fn law_register_keeps_others(
    r: FunctionRegistry,
    after: FunctionRegistry,
    location: Seq<char>,
    func: BuiltinImpl,
    other: Seq<char>,
)
    requires
        after.functions_map() == r.functions_map().insert(location, func),
        other != location,
    ensures
        after.functions_map().contains_key(other) == r.functions_map().contains_key(other),
        r.functions_map().contains_key(other) ==> after.functions_map()[other] == r.functions_map()[other],
{
}

} // verus!
