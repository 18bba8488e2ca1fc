//! What a reader makes of the bytes that are written: it gets back what was put in.
use vstd::prelude::*;
use vstd::utf8::encode_utf8;
use crate::encode::{
    component_bytes, component_fits, component_section_is_writable, component_section_payload,
    module_bytes, module_fits, section_is_writable, section_payload,
};
use crate::format::{encoded_bytes, encoded_text, leb128, local_runs, sleb128, LocalRun};
use crate::names::{encoded_names, name_map, name_section, NameV};
use crate::size::{all_bytes, Encoded};
use crate::wasm::{
    Body, BodyV, ComponentSection, ComponentSectionV, ComponentType, CoreAlias, DataSegment,
    ElementSegment, Export, FuncExport, FuncType, Global, Import, Instantiation, Lift,
    ModuleSection, ModuleSectionV, ValueType,
};

verus! {

/// Reads a number without a sign: the value, and the bytes behind it.
pub open spec fn unsigned(bytes: Seq<u8>) -> Option<(int, Seq<u8>)>
    decreases bytes.len(),
{
    if bytes.len() == 0 {
        None
    } else if bytes[0] < 128 {
        Some((bytes[0] as int, bytes.skip(1)))
    } else {
        match unsigned(bytes.skip(1)) {
            Some((high, rest)) => Some((bytes[0] - 128 + 128 * high, rest)),
            None => None,
        }
    }
}

/// Reads a number with a sign.
pub open spec fn signed(bytes: Seq<u8>) -> Option<(int, Seq<u8>)>
    decreases bytes.len(),
{
    if bytes.len() == 0 {
        None
    } else if bytes[0] < 64 {
        Some((bytes[0] as int, bytes.skip(1)))
    } else if bytes[0] < 128 {
        Some((bytes[0] - 128, bytes.skip(1)))
    } else {
        match signed(bytes.skip(1)) {
            Some((high, rest)) => Some((bytes[0] - 128 + 128 * high, rest)),
            None => None,
        }
    }
}

/// A number is read back, and what follows is left alone.  It takes no byte too many.
pub proof fn law_number_is_read_back(n: nat, rest: Seq<u8>)
    ensures
        unsigned(leb128(n) + rest) == Some((n as int, rest)),
        leb128(n).len() > 0,
        leb128(n).len() > 1 ==> leb128(n).last() != 0,
    decreases n,
{
    let bytes = leb128(n) + rest;
    if n < 128 {
        assert(bytes.skip(1) =~= rest);
    } else {
        law_number_is_read_back(n / 128, rest);
        assert(bytes[0] == n % 128 + 128);
        assert(bytes.skip(1) =~= leb128(n / 128) + rest);
        assert(leb128(n).last() == leb128(n / 128).last());
        if n / 128 >= 128 {
            law_number_is_read_back(n / 128 / 128, rest);
        }
    }
}

/// A number with a sign is read back.
pub proof fn law_signed_number_is_read_back(n: int, rest: Seq<u8>)
    ensures
        signed(sleb128(n) + rest) == Some((n, rest)),
    decreases
            if n < 0 {
                -n
            } else {
                n
            },
{
    let bytes = sleb128(n) + rest;
    if -64 <= n < 64 {
        assert(bytes.skip(1) =~= rest);
        assert(bytes[0] == n % 128);
    } else {
        law_signed_number_is_read_back(n / 128, rest);
        assert(bytes[0] == n % 128 + 128);
        assert(bytes.skip(1) =~= sleb128(n / 128) + rest);
    }
}

/// Reads so many bytes as a number in front of them says.
pub open spec fn counted_bytes(bytes: Seq<u8>) -> Option<(Seq<u8>, Seq<u8>)> {
    match unsigned(bytes) {
        Some((n, rest)) => if n <= rest.len() {
            Some((rest.take(n), rest.skip(n)))
        } else {
            None
        },
        None => None,
    }
}

/// Bytes with their number in front, and texts, which are such bytes, are read back.
pub proof fn law_bytes_and_texts_are_read_back(b: Seq<u8>, s: Seq<char>, rest: Seq<u8>)
    ensures
        counted_bytes(encoded_bytes(b) + rest) == Some((b, rest)),
        counted_bytes(encoded_text(s) + rest) == Some((encode_utf8(s), rest)),
{
    lemma_counted(b, rest);
    lemma_counted(encode_utf8(s), rest);
    assert(encoded_text(s) == encoded_bytes(encode_utf8(s)));
}

proof fn lemma_counted(b: Seq<u8>, rest: Seq<u8>)
    ensures
        counted_bytes(encoded_bytes(b) + rest) == Some((b, rest)),
{
    let tail = b + rest;
    law_number_is_read_back(b.len(), tail);
    assert(encoded_bytes(b) + rest =~= leb128(b.len()) + tail);
    assert(tail.take(b.len() as int) =~= b);
    assert(tail.skip(b.len() as int) =~= rest);
}

/// Reads so many sections: the id of each, and its contents; and the bytes behind them.
pub open spec fn read_sections(bytes: Seq<u8>, n: nat) -> Option<(Seq<(u8, Seq<u8>)>, Seq<u8>)>
    decreases n,
{
    if n == 0 {
        Some((seq![], bytes))
    } else if bytes.len() == 0 {
        None
    } else {
        match counted_bytes(bytes.skip(1)) {
            Some((data, rest)) => match read_sections(rest, (n - 1) as nat) {
                Some((more, end)) => Some((seq![(bytes[0], data)] + more, end)),
                None => None,
            },
            None => None,
        }
    }
}

/// The id by which a section of a module is known.
pub open spec fn has_module_id(s: ModuleSectionV, id: u8) -> bool {
    match s {
        ModuleSectionV::Custom { .. } => id == 0,
        ModuleSectionV::Types(_) => id == 1,
        ModuleSectionV::Imports(_) => id == 2,
        ModuleSectionV::Functions(_) => id == 3,
        ModuleSectionV::Globals(_) => id == 6,
        ModuleSectionV::Exports(_) => id == 7,
        ModuleSectionV::Elements(_) => id == 9,
        ModuleSectionV::Code(_) => id == 10,
        ModuleSectionV::Data(_) => id == 11,
        ModuleSectionV::DataCount(_) => id == 12,
        ModuleSectionV::Raw { id: own, .. } => id == own,
    }
}

/// The id by which a section of a component is known.
pub open spec fn has_component_id(s: ComponentSectionV, id: u8) -> bool {
    match s {
        ComponentSectionV::Module(_) => id == 1,
        ComponentSectionV::Instances(_) => id == 2,
        ComponentSectionV::Aliases(_) => id == 6,
        ComponentSectionV::Types(_) => id == 7,
        ComponentSectionV::Lifts(_) => id == 8,
        ComponentSectionV::Exports(_) => id == 11,
        ComponentSectionV::Raw { id: own, .. } => id == own,
    }
}

/// What several items are written as is what the first is, and then the others.
pub proof fn law_items_are_written_one_after_the_other<T: Encoded>(a: Seq<T::V>, b: Seq<T::V>)
    ensures
        all_bytes::<T>(a + b) == all_bytes::<T>(a) + all_bytes::<T>(b),
    decreases b.len(),
{
    if b.len() == 0 {
        assert(a + b =~= a);
        assert(all_bytes::<T>(a) + all_bytes::<T>(b) =~= all_bytes::<T>(a));
    } else {
        law_items_are_written_one_after_the_other::<T>(a, b.drop_last());
        assert((a + b).drop_last() =~= a + b.drop_last());
        assert((a + b).last() == b.last());
        assert(all_bytes::<T>(a + b) =~= all_bytes::<T>(a) + all_bytes::<T>(b));
    }
}

proof fn lemma_first_item<T: Encoded>(s: Seq<T::V>)
    requires
        s.len() > 0,
    ensures
        all_bytes::<T>(s) == T::bytes_of(s[0]) + all_bytes::<T>(s.skip(1)),
{
    let first = seq![s[0]];
    assert(first + s.skip(1) =~= s);
    law_items_are_written_one_after_the_other::<T>(first, s.skip(1));
    reveal_with_fuel(all_bytes, 2);
    assert(first.drop_last() =~= Seq::<T::V>::empty());
    assert(all_bytes::<T>(first) =~= T::bytes_of(s[0]));
}

proof fn lemma_module_sections(sections: Seq<ModuleSectionV>, rest: Seq<u8>)
    ensures
        read_sections(
            all_bytes::<ModuleSection>(sections) + rest,
            sections.len(),
        ) matches Some((found, end)) && end == rest && found.len() == sections.len()
            && forall|k: int|
            0 <= k < sections.len() ==> has_module_id(sections[k], (#[trigger] found[k]).0)
                && found[k].1 == section_payload(sections[k]),
    decreases sections.len(),
{
    let bytes = all_bytes::<ModuleSection>(sections) + rest;
    if sections.len() == 0 {
        assert(bytes =~= rest);
    } else {
        let first = sections[0];
        let others = sections.skip(1);
        let tail = all_bytes::<ModuleSection>(others) + rest;
        lemma_first_item::<ModuleSection>(sections);
        lemma_module_sections(others, rest);
        let own = <ModuleSection as Encoded>::bytes_of(first);
        let payload = section_payload(first);
        assert(bytes =~= own + tail);
        assert(bytes.skip(1) =~= encoded_bytes(payload) + tail);
        law_bytes_and_texts_are_read_back(payload, seq![], tail);
        let (more, end) = read_sections(tail, others.len())->Some_0;
        let found = seq![(bytes[0], payload)] + more;
        assert forall|k: int| 0 <= k < sections.len() implies has_module_id(
            sections[k],
            (#[trigger] found[k]).0,
        ) && found[k].1 == section_payload(sections[k]) by {
            if k > 0 {
                assert(found[k] == more[k - 1]);
                assert(others[k - 1] == sections[k]);
            }
        }
    }
}

/// A module starts with the magic number and its version, and behind them its sections are
/// read back: each by its id, with its contents, in order, and none besides.
pub proof fn law_module_is_read_back(sections: Seq<ModuleSectionV>)
    ensures
        module_bytes(sections).take(8) == seq![0u8, 0x61, 0x73, 0x6d, 1, 0, 0, 0],
        read_sections(module_bytes(sections).skip(8), sections.len()) matches Some((found, end))
            && end.len() == 0 && found.len() == sections.len() && forall|k: int|
            0 <= k < sections.len() ==> has_module_id(sections[k], (#[trigger] found[k]).0)
                && found[k].1 == section_payload(sections[k]),
{
    let all = all_bytes::<ModuleSection>(sections);
    lemma_module_sections(sections, seq![]);
    assert(module_bytes(sections).skip(8) =~= all + Seq::<u8>::empty());
    assert(module_bytes(sections).take(8) =~= seq![0u8, 0x61, 0x73, 0x6d, 1, 0, 0, 0]);
}

proof fn lemma_component_sections(sections: Seq<ComponentSectionV>, rest: Seq<u8>)
    ensures
        read_sections(
            all_bytes::<ComponentSection>(sections) + rest,
            sections.len(),
        ) matches Some((found, end)) && end == rest && found.len() == sections.len()
            && forall|k: int|
            0 <= k < sections.len() ==> has_component_id(sections[k], (#[trigger] found[k]).0)
                && found[k].1 == component_section_payload(sections[k]),
    decreases sections.len(),
{
    let bytes = all_bytes::<ComponentSection>(sections) + rest;
    if sections.len() == 0 {
        assert(bytes =~= rest);
    } else {
        let first = sections[0];
        let others = sections.skip(1);
        let tail = all_bytes::<ComponentSection>(others) + rest;
        lemma_first_item::<ComponentSection>(sections);
        lemma_component_sections(others, rest);
        let own = <ComponentSection as Encoded>::bytes_of(first);
        let payload = component_section_payload(first);
        assert(bytes =~= own + tail);
        assert(bytes.skip(1) =~= encoded_bytes(payload) + tail);
        law_bytes_and_texts_are_read_back(payload, seq![], tail);
        let (more, end) = read_sections(tail, others.len())->Some_0;
        let found = seq![(bytes[0], payload)] + more;
        assert forall|k: int| 0 <= k < sections.len() implies has_component_id(
            sections[k],
            (#[trigger] found[k]).0,
        ) && found[k].1 == component_section_payload(sections[k]) by {
            if k > 0 {
                assert(found[k] == more[k - 1]);
                assert(others[k - 1] == sections[k]);
            }
        }
    }
}

/// A component starts with the magic number and its version, and behind them its sections are
/// read back.  Those of a module hold the module as it is written by itself, and those that
/// were kept hold what they held.
pub proof fn law_component_is_read_back(sections: Seq<ComponentSectionV>)
    ensures
        component_bytes(sections).take(8) == seq![0u8, 0x61, 0x73, 0x6d, 0x0d, 0, 1, 0],
        read_sections(component_bytes(sections).skip(8), sections.len()) matches Some((
            found,
            end,
        )) && end.len() == 0 && found.len() == sections.len() && forall|k: int|
            0 <= k < sections.len() ==> has_component_id(sections[k], (#[trigger] found[k]).0)
                && match sections[k] {
                ComponentSectionV::Raw { data, .. } => found[k].1 == data,
                ComponentSectionV::Module(inner) => found[k].1 == module_bytes(inner),
                other => found[k].1 == component_section_payload(other),
            },
{
    let all = all_bytes::<ComponentSection>(sections);
    lemma_component_sections(sections, seq![]);
    assert(component_bytes(sections).skip(8) =~= all + Seq::<u8>::empty());
    assert(component_bytes(sections).take(8) =~= seq![0u8, 0x61, 0x73, 0x6d, 0x0d, 0, 1, 0]);
}

/// What is kept of a module is written as it was, and a custom section is its name and then
/// its contents.
pub proof fn law_kept_sections_are_written_as_they_were(
    id: u8,
    data: Seq<u8>,
    name: Seq<char>,
    count: u32,
)
    ensures
        section_payload(ModuleSectionV::Raw { id, data }) == data,
        counted_bytes(section_payload(ModuleSectionV::Custom { name, content: data })) == Some(
            (encode_utf8(name), data),
        ),
        unsigned(section_payload(ModuleSectionV::DataCount(count))) == Some(
            (count as int, Seq::<u8>::empty()),
        ),
{
    law_bytes_and_texts_are_read_back(data, name, data);
    law_number_is_read_back(count as nat, seq![]);
    assert(leb128(count as nat) + Seq::<u8>::empty() =~= leb128(count as nat));
}

/// A section that is a list starts with the number of its items, and behind it come the items
/// one after the other.
pub proof fn law_lists_start_with_their_length(s: ModuleSectionV)
    ensures
        match s {
            ModuleSectionV::Types(items) => unsigned(section_payload(s)) == Some(
                (items.len() as int, all_bytes::<FuncType>(items)),
            ),
            ModuleSectionV::Imports(items) => unsigned(section_payload(s)) == Some(
                (items.len() as int, all_bytes::<Import>(items)),
            ),
            ModuleSectionV::Functions(items) => unsigned(section_payload(s)) == Some(
                (items.len() as int, all_bytes::<u32>(items)),
            ),
            ModuleSectionV::Globals(items) => unsigned(section_payload(s)) == Some(
                (items.len() as int, all_bytes::<Global>(items)),
            ),
            ModuleSectionV::Exports(items) => unsigned(section_payload(s)) == Some(
                (items.len() as int, all_bytes::<Export>(items)),
            ),
            ModuleSectionV::Elements(items) => unsigned(section_payload(s)) == Some(
                (items.len() as int, all_bytes::<ElementSegment>(items)),
            ),
            ModuleSectionV::Code(items) => unsigned(section_payload(s)) == Some(
                (items.len() as int, all_bytes::<Body>(items)),
            ),
            ModuleSectionV::Data(items) => unsigned(section_payload(s)) == Some(
                (items.len() as int, all_bytes::<DataSegment>(items)),
            ),
            _ => true,
        },
{
    match s {
        ModuleSectionV::Types(items) => {
            law_number_is_read_back(items.len(), all_bytes::<FuncType>(items));
        },
        ModuleSectionV::Imports(items) => {
            law_number_is_read_back(items.len(), all_bytes::<Import>(items));
        },
        ModuleSectionV::Functions(items) => {
            law_number_is_read_back(items.len(), all_bytes::<u32>(items));
        },
        ModuleSectionV::Globals(items) => {
            law_number_is_read_back(items.len(), all_bytes::<Global>(items));
        },
        ModuleSectionV::Exports(items) => {
            law_number_is_read_back(items.len(), all_bytes::<Export>(items));
        },
        ModuleSectionV::Elements(items) => {
            law_number_is_read_back(items.len(), all_bytes::<ElementSegment>(items));
        },
        ModuleSectionV::Code(items) => {
            law_number_is_read_back(items.len(), all_bytes::<Body>(items));
        },
        ModuleSectionV::Data(items) => {
            law_number_is_read_back(items.len(), all_bytes::<DataSegment>(items));
        },
        _ => {},
    }
}

/// The same of a section of a component.
pub proof fn law_component_lists_start_with_their_length(s: ComponentSectionV)
    ensures
        match s {
            ComponentSectionV::Instances(items) => unsigned(component_section_payload(s)) == Some(
                (items.len() as int, all_bytes::<Instantiation>(items)),
            ),
            ComponentSectionV::Types(items) => unsigned(component_section_payload(s)) == Some(
                (items.len() as int, all_bytes::<ComponentType>(items)),
            ),
            ComponentSectionV::Aliases(items) => unsigned(component_section_payload(s)) == Some(
                (items.len() as int, all_bytes::<CoreAlias>(items)),
            ),
            ComponentSectionV::Lifts(items) => unsigned(component_section_payload(s)) == Some(
                (items.len() as int, all_bytes::<Lift>(items)),
            ),
            ComponentSectionV::Exports(items) => unsigned(component_section_payload(s)) == Some(
                (items.len() as int, all_bytes::<FuncExport>(items)),
            ),
            _ => true,
        },
{
    match s {
        ComponentSectionV::Instances(items) => {
            law_number_is_read_back(items.len(), all_bytes::<Instantiation>(items));
        },
        ComponentSectionV::Types(items) => {
            law_number_is_read_back(items.len(), all_bytes::<ComponentType>(items));
        },
        ComponentSectionV::Aliases(items) => {
            law_number_is_read_back(items.len(), all_bytes::<CoreAlias>(items));
        },
        ComponentSectionV::Lifts(items) => {
            law_number_is_read_back(items.len(), all_bytes::<Lift>(items));
        },
        ComponentSectionV::Exports(items) => {
            law_number_is_read_back(items.len(), all_bytes::<FuncExport>(items));
        },
        _ => {},
    }
}

/// A module can be written exactly if the contents of no section take more bytes than 32 bits
/// can count, and no body has more locals.
pub proof fn law_module_fits_if_its_sizes_do(sections: Seq<ModuleSectionV>)
    ensures
        module_fits(sections) <==> forall|j: int|
            0 <= j < sections.len() ==> section_payload(#[trigger] sections[j]).len()
                <= 0xffff_ffff && (sections[j] matches ModuleSectionV::Code(bodies)
                ==> no_long_locals(bodies)),
{
    assert forall|j: int| 0 <= j < sections.len() implies (
    #[trigger] section_is_writable(sections[j]) <==> (sections[j] matches
        ModuleSectionV::Code(bodies) ==> no_long_locals(bodies))) by {
        lemma_writable(sections[j]);
    }
    if module_fits(sections) {
        assert forall|j: int| 0 <= j < sections.len() implies section_payload(
            #[trigger] sections[j],
        ).len() <= 0xffff_ffff && (sections[j] matches ModuleSectionV::Code(bodies)
            ==> no_long_locals(bodies)) by {
            lemma_writable(sections[j]);
        }
    }
    if forall|j: int|
        0 <= j < sections.len() ==> section_payload(#[trigger] sections[j]).len() <= 0xffff_ffff
            && (sections[j] matches ModuleSectionV::Code(bodies) ==> no_long_locals(bodies)) {
        assert forall|j: int| 0 <= j < sections.len() implies section_is_writable(
            #[trigger] sections[j],
        ) && section_payload(sections[j]).len() <= u32::MAX by {
            lemma_writable(sections[j]);
        }
    }
}

proof fn lemma_writable(section: ModuleSectionV)
    ensures
        section_is_writable(section) <==> (section matches ModuleSectionV::Code(
            bodies,
        ) ==> no_long_locals(bodies)),
{
    if let ModuleSectionV::Code(bodies) = section {
        if section_is_writable(section) {
            assert forall|k: int| 0 <= k < bodies.len() implies (
            #[trigger] bodies[k]).locals.len() <= 0xffff_ffff by {
                assert(<Body as Encoded>::is_writable(bodies[k]));
            }
        }
    }
}

/// No body has more locals than 32 bits can count.
pub open spec fn no_long_locals(bodies: Seq<BodyV>) -> bool {
    forall|k: int| 0 <= k < bodies.len() ==> (#[trigger] bodies[k]).locals.len() <= 0xffff_ffff
}

/// A component can be written only if the contents of no section take more bytes than 32 bits
/// can count, and can be if, besides, every module in it can be.
pub proof fn law_component_fits_if_its_sizes_do(sections: Seq<ComponentSectionV>)
    ensures
        component_fits(sections) ==> forall|j: int|
            0 <= j < sections.len() ==> component_section_payload(#[trigger] sections[j]).len()
                <= 0xffff_ffff,
        (forall|j: int|
            0 <= j < sections.len() ==> component_section_payload(#[trigger] sections[j]).len()
                <= 0xffff_ffff && (sections[j] matches ComponentSectionV::Module(inner)
                ==> module_fits(inner))) ==> component_fits(sections),
{
    if forall|j: int|
        0 <= j < sections.len() ==> component_section_payload(#[trigger] sections[j]).len()
            <= 0xffff_ffff && (sections[j] matches ComponentSectionV::Module(inner)
            ==> module_fits(inner)) {
        assert forall|j: int|
            0 <= j < sections.len() implies component_section_is_writable(
            #[trigger] sections[j],
        ) && component_section_payload(sections[j]).len() <= u32::MAX by {
            if let ComponentSectionV::Module(inner) = sections[j] {
                assert(module_fits(inner));
            }
        }
    }
}

/// Locals written out, run after run.
pub open spec fn expanded(runs: Seq<LocalRun>) -> Seq<ValueType>
    decreases runs.len(),
{
    if runs.len() == 0 {
        seq![]
    } else {
        expanded(runs.drop_last()) + Seq::new(
            runs.last().count as nat,
            |k: int| runs.last().ty,
        )
    }
}

/// The runs into which locals are put together are the locals, and no two runs that follow
/// one another are of one type.
pub proof fn law_runs_are_the_locals(locals: Seq<ValueType>)
    requires
        locals.len() <= u32::MAX,
    ensures
        expanded(local_runs(locals)) == locals,
        forall|k: int|
            0 <= k < local_runs(locals).len() ==> (#[trigger] local_runs(locals)[k]).count > 0,
        forall|j: int, k: int|
            0 <= j && k == j + 1 && k < local_runs(locals).len() ==> (#[trigger] local_runs(
                locals,
            )[j]).ty != (#[trigger] local_runs(locals)[k]).ty,
    decreases locals.len(),
{
    if locals.len() > 0 {
        let rest = locals.drop_last();
        let before = local_runs(rest);
        let runs = local_runs(locals);
        let ty = locals.last();
        law_runs_are_the_locals(rest);
        if before.len() > 0 && before.last().ty == ty {
            lemma_run_fits(before);
            let last = before.last();
            assert(runs.drop_last() =~= before.drop_last());
            assert(expanded(runs) =~= expanded(before).push(ty));
            assert forall|k: int| 0 <= k < runs.len() implies (#[trigger] runs[k]).count > 0 by {
                if k < runs.len() - 1 {
                    assert(runs[k] == before[k]);
                }
            }
            assert forall|j: int, k: int|
                0 <= j && k == j + 1 && k < runs.len() implies (#[trigger] runs[j]).ty != (
            #[trigger] runs[k]).ty by {
                assert(before[j].ty != before[k].ty);
            }
        } else {
            assert(runs.drop_last() =~= before);
            assert(expanded(runs) =~= expanded(before).push(ty));
        }
        assert(rest.push(ty) =~= locals);
    }
}

proof fn lemma_run_fits(runs: Seq<LocalRun>)
    requires
        runs.len() > 0,
    ensures
        runs.last().count <= expanded(runs).len(),
{
}

/// Reads so many names: the index of each, and its bytes.
pub open spec fn read_names(bytes: Seq<u8>, n: nat) -> Option<(Seq<(int, Seq<u8>)>, Seq<u8>)>
    decreases n,
{
    if n == 0 {
        Some((seq![], bytes))
    } else {
        match unsigned(bytes) {
            Some((index, rest)) => match counted_bytes(rest) {
                Some((name, rest)) => match read_names(rest, (n - 1) as nat) {
                    Some((more, end)) => Some((seq![(index, name)] + more, end)),
                    None => None,
                },
                None => None,
            },
            None => None,
        }
    }
}

proof fn lemma_names_split(a: Seq<NameV>, b: Seq<NameV>)
    ensures
        encoded_names(a + b) == encoded_names(a) + encoded_names(b),
    decreases b.len(),
{
    if b.len() == 0 {
        assert(a + b =~= a);
        assert(encoded_names(a) + encoded_names(b) =~= encoded_names(a));
    } else {
        lemma_names_split(a, b.drop_last());
        assert((a + b).drop_last() =~= a + b.drop_last());
        assert(encoded_names(a + b) =~= encoded_names(a) + encoded_names(b));
    }
}

proof fn lemma_names_read(names: Seq<NameV>, rest: Seq<u8>)
    ensures
        read_names(encoded_names(names) + rest, names.len()) matches Some((found, end)) && end
            == rest && found.len() == names.len() && forall|k: int|
            0 <= k < names.len() ==> #[trigger] found[k] == (
                names[k].index as int,
                encode_utf8(names[k].name),
            ),
    decreases names.len(),
{
    let bytes = encoded_names(names) + rest;
    if names.len() == 0 {
        assert(bytes =~= rest);
    } else {
        let first = names[0];
        let others = names.skip(1);
        let one = seq![first];
        assert(one + others =~= names);
        lemma_names_split(one, others);
        reveal_with_fuel(encoded_names, 2);
        assert(one.drop_last() =~= Seq::<NameV>::empty());
        assert(encoded_names(one) =~= leb128(first.index as nat) + encoded_text(first.name));
        let tail = encoded_names(others) + rest;
        let middle = encoded_text(first.name) + tail;
        assert(bytes =~= leb128(first.index as nat) + middle);
        law_number_is_read_back(first.index as nat, middle);
        law_bytes_and_texts_are_read_back(seq![], first.name, tail);
        lemma_names_read(others, rest);
        let (more, end) = read_names(tail, others.len())->Some_0;
        let found = seq![(first.index as int, encode_utf8(first.name))] + more;
        assert forall|k: int| 0 <= k < names.len() implies #[trigger] found[k] == (
            names[k].index as int,
            encode_utf8(names[k].name),
        ) by {
            if k > 0 {
                assert(found[k] == more[k - 1]);
                assert(others[k - 1] == names[k]);
            }
        }
    }
}

/// A list of names is read back: their number, and the index and the text of each, in order.
pub proof fn law_names_are_read_back(names: Seq<NameV>)
    ensures
        unsigned(name_map(names)) matches Some((n, rest)) && n == names.len() && (read_names(
            rest,
            names.len(),
        ) matches Some((found, end)) && end.len() == 0 && found.len() == names.len()
            && forall|k: int|
            0 <= k < names.len() ==> #[trigger] found[k] == (
                names[k].index as int,
                encode_utf8(names[k].name),
            )),
{
    let all = encoded_names(names);
    law_number_is_read_back(names.len(), all);
    lemma_names_read(names, seq![]);
    assert(all + Seq::<u8>::empty() =~= all);
}

/// The name section holds the names of functions, and then those of globals, as sections of
/// their own.
pub proof fn law_name_section_is_read_back(functions: Seq<NameV>, globals: Seq<NameV>)
    ensures
        read_sections(name_section(functions, globals), 2) matches Some((found, end)) && end.len()
            == 0 && found.len() == 2 && found[0] == (1u8, name_map(functions)) && found[1] == (
            7u8,
            name_map(globals),
        ),
{
    let bytes = name_section(functions, globals);
    let a = name_map(functions);
    let b = name_map(globals);
    let tail = seq![7u8] + encoded_bytes(b);
    assert(bytes =~= seq![1u8] + encoded_bytes(a) + tail);
    assert(bytes.skip(1) =~= encoded_bytes(a) + tail);
    law_bytes_and_texts_are_read_back(a, seq![], tail);
    assert(tail.skip(1) =~= encoded_bytes(b) + Seq::<u8>::empty());
    law_bytes_and_texts_are_read_back(b, seq![], seq![]);
    reveal_with_fuel(read_sections, 3);
    let last = seq![(7u8, b)] + Seq::<(u8, Seq<u8>)>::empty();
    assert(read_sections(tail, 1) == Some((last, Seq::<u8>::empty())));
}

} // verus!
