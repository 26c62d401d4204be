//! The numeric vectors of a decoder as a plan's sections.
use vstd::prelude::*;

use crate::plan;
use crate::plan::{Section, SectionView};
use crate::plan_error::{PlanError, PlanErrorView, SectionFault};
use crate::section_table;
use crate::section_table::SectionTable;
use crate::vectors;
use crate::vectors::{
    complex_f32, f32_section, nested_f32, nested_sos, optional_complex_f32, optional_f32,
    optional_sos, pairs_f32, replace_complex, replace_f32, replace_nested_f32, replace_nested_sos,
    replace_optional_complex, replace_optional_f32, replace_optional_sos, replace_sos,
    sos_section, Sos,
};

verus! {

/// Every architecture-sensitive vector of a decoder.
pub struct NumericVectors {
    pub video_eq_fft_gain: Option<Vec<u32>>,
    pub chroma_afc_narrowband: Vec<Vec<Sos>>,
    pub rf_chroma_heterodyne: Vec<Vec<u32>>,
    pub rf_fsc_wave: Vec<(u32, u32)>,
    pub chroma_burst_block_fft_gain: Vec<u32>,
    pub chroma_filter_video_notch: Option<Vec<Sos>>,
    pub chroma_filter_deemphasis: Option<Vec<Sos>>,
    pub chroma_filter_audio_notch: Option<Vec<Sos>>,
    pub chroma_filter_final: Vec<Sos>,
    pub chroma_filter_secam_under: Option<Vec<Sos>>,
    pub video_rf_filter: Vec<u32>,
    pub video_notch_filter: Option<Vec<u32>>,
    pub video_env_post_filter: Vec<Sos>,
    pub video_rf_top_fft_gain: Option<Vec<u32>>,
    pub video_filter: Vec<(u32, u32)>,
    pub video_nl_amplitude_lpf: Vec<Sos>,
    pub video_nl_high_pass_f: Option<Vec<(u32, u32)>>,
    pub video_fsc_notch: Option<Vec<Sos>>,
    pub video05_filter: Vec<(u32, u32)>,
    pub resync_vsync_env_filter: Vec<Sos>,
    pub resync_serration_filter_base_0: Vec<Sos>,
    pub resync_serration_filter_base_1: Vec<Sos>,
    pub resync_serration_filter_envelope: Vec<Sos>,
}

/// How many sections a plan of a decoder has.
pub const SECTION_COUNT: usize = 23;

impl NumericVectors {
    /// The sections that hold the vectors, in the order of a plan.
    pub open spec fn sections(self) -> Seq<SectionView> {
        Seq::new(SECTION_COUNT as nat, |i: int| self.section(i))
    }

    /// The section at a place in a plan.
    #[verifier::opaque]
    pub open spec fn section(self, index: int) -> SectionView {
        if index == 0 {
            vectors::optional_f32_view("video_eq_fft_gain"@, self.video_eq_fft_gain)
        } else if index == 1 {
            vectors::nested_sos_view("chroma_afc_narrowband"@, self.chroma_afc_narrowband@)
        } else if index == 2 {
            vectors::nested_f32_view("rf_chroma_heterodyne"@, self.rf_chroma_heterodyne@)
        } else if index == 3 {
            vectors::complex_view("rf_fsc_wave"@, self.rf_fsc_wave@)
        } else if index == 4 {
            vectors::f32_view("chroma_burst_block_fft_gain"@, self.chroma_burst_block_fft_gain@)
        } else if index == 5 {
            vectors::optional_sos_view("chroma_filter_video_notch"@, self.chroma_filter_video_notch)
        } else if index == 6 {
            vectors::optional_sos_view("chroma_filter_deemphasis"@, self.chroma_filter_deemphasis)
        } else if index == 7 {
            vectors::optional_sos_view("chroma_filter_audio_notch"@, self.chroma_filter_audio_notch)
        } else if index == 8 {
            vectors::sos_view("chroma_filter_final"@, self.chroma_filter_final@)
        } else if index == 9 {
            vectors::optional_sos_view("chroma_filter_secam_under"@, self.chroma_filter_secam_under)
        } else if index == 10 {
            vectors::f32_view("video_rf_filter"@, self.video_rf_filter@)
        } else if index == 11 {
            vectors::optional_f32_view("video_notch_filter"@, self.video_notch_filter)
        } else if index == 12 {
            vectors::sos_view("video_env_post_filter"@, self.video_env_post_filter@)
        } else if index == 13 {
            vectors::optional_f32_view("video_rf_top_fft_gain"@, self.video_rf_top_fft_gain)
        } else if index == 14 {
            vectors::complex_view("video_filter"@, self.video_filter@)
        } else if index == 15 {
            vectors::sos_view("video_nl_amplitude_lpf"@, self.video_nl_amplitude_lpf@)
        } else if index == 16 {
            vectors::optional_complex_view("video_nl_high_pass_f"@, self.video_nl_high_pass_f)
        } else if index == 17 {
            vectors::optional_sos_view("video_fsc_notch"@, self.video_fsc_notch)
        } else if index == 18 {
            vectors::complex_view("video05_filter"@, self.video05_filter@)
        } else if index == 19 {
            vectors::sos_view("resync_vsync_env_filter"@, self.resync_vsync_env_filter@)
        } else if index == 20 {
            vectors::sos_view("resync_serration_filter_base_0"@, self.resync_serration_filter_base_0@)
        } else if index == 21 {
            vectors::sos_view("resync_serration_filter_base_1"@, self.resync_serration_filter_base_1@)
        } else {
            vectors::sos_view("resync_serration_filter_envelope"@, self.resync_serration_filter_envelope@)
        }
    }

    /// The sections that hold the vectors, in the order of a plan.
    pub fn to_sections(&self) -> (sections: Vec<Section>)
        ensures
            plan::sections_view(sections@) == self.sections(),
    {
        proof {
            reveal(NumericVectors::section);
        }
        let mut sections: Vec<Section> = Vec::with_capacity(SECTION_COUNT);
        sections.push(optional_f32("video_eq_fft_gain", &self.video_eq_fft_gain));
        sections.push(nested_sos("chroma_afc_narrowband", &self.chroma_afc_narrowband));
        sections.push(nested_f32("rf_chroma_heterodyne", &self.rf_chroma_heterodyne));
        sections.push(pairs_f32("rf_fsc_wave", &self.rf_fsc_wave));
        sections.push(f32_section("chroma_burst_block_fft_gain", &self.chroma_burst_block_fft_gain));
        sections.push(optional_sos("chroma_filter_video_notch", &self.chroma_filter_video_notch));
        sections.push(optional_sos("chroma_filter_deemphasis", &self.chroma_filter_deemphasis));
        sections.push(optional_sos("chroma_filter_audio_notch", &self.chroma_filter_audio_notch));
        sections.push(sos_section("chroma_filter_final", &self.chroma_filter_final));
        sections.push(optional_sos("chroma_filter_secam_under", &self.chroma_filter_secam_under));
        sections.push(f32_section("video_rf_filter", &self.video_rf_filter));
        sections.push(optional_f32("video_notch_filter", &self.video_notch_filter));
        sections.push(sos_section("video_env_post_filter", &self.video_env_post_filter));
        sections.push(optional_f32("video_rf_top_fft_gain", &self.video_rf_top_fft_gain));
        sections.push(complex_f32("video_filter", &self.video_filter));
        sections.push(sos_section("video_nl_amplitude_lpf", &self.video_nl_amplitude_lpf));
        sections.push(optional_complex_f32("video_nl_high_pass_f", &self.video_nl_high_pass_f));
        sections.push(optional_sos("video_fsc_notch", &self.video_fsc_notch));
        sections.push(complex_f32("video05_filter", &self.video05_filter));
        sections.push(sos_section("resync_vsync_env_filter", &self.resync_vsync_env_filter));
        sections.push(sos_section("resync_serration_filter_base_0", &self.resync_serration_filter_base_0));
        sections.push(sos_section("resync_serration_filter_base_1", &self.resync_serration_filter_base_1));
        sections.push(sos_section("resync_serration_filter_envelope", &self.resync_serration_filter_envelope));
        proof {
            assert(plan::sections_view(sections@) =~= self.sections());
        }
        sections
    }
}

/// The first reason why the table does not hold the expected sections.
pub open spec fn first_mismatch(
    table: Map<Seq<char>, SectionView>,
    expected: Seq<SectionView>,
) -> Option<PlanErrorView>
    decreases expected.len(),
{
    if expected.len() == 0 {
        None
    } else {
        match first_mismatch(table, expected.drop_last()) {
            Some(error) => Some(error),
            None => section_table::match_error(table, expected.last()),
        }
    }
}

/// The table without the sections of the expected names.
pub open spec fn unexpected(
    table: Map<Seq<char>, SectionView>,
    expected: Seq<SectionView>,
) -> Map<Seq<char>, SectionView> {
    table.remove_keys(Set::new(|name: Seq<char>| section_table::named(expected, name)))
}

proof fn lemma_mismatch_stays(
    table: Map<Seq<char>, SectionView>,
    expected: Seq<SectionView>,
    count: int,
)
    requires
        0 <= count <= expected.len(),
        first_mismatch(table, expected.take(count)) is Some,
    ensures
        first_mismatch(table, expected) == first_mismatch(table, expected.take(count)),
    decreases expected.len() - count,
{
    if count < expected.len() {
        assert(expected.take(count + 1).drop_last() =~= expected.take(count));
        lemma_mismatch_stays(table, expected, count + 1);
    } else {
        assert(expected.take(count) =~= expected);
    }
}

/// Takes the expected sections out of the table, each tested for its encoding
/// and shape.
fn take_all(table: SectionTable, expected: &Vec<Section>) -> (result: Result<
    Vec<Section>,
    PlanError,
>)
    requires
        section_table::distinct(plan::sections_view(expected@)),
    ensures
        ({
            let views = plan::sections_view(expected@);
            match result {
                Ok(actual) => {
                    &&& first_mismatch(table@, views) is None
                    &&& unexpected(table@, views) == Map::<Seq<char>, SectionView>::empty()
                    &&& actual@.len() == expected@.len()
                    &&& forall|i: int|
                        0 <= i < actual@.len() ==> (#[trigger] actual@[i])@
                            == table@[views[i].name] && section_table::match_error(
                            table@,
                            views[i],
                        ) is None
                },
                Err(error) => if first_mismatch(table@, views) is Some {
                    first_mismatch(table@, views) == Some(error@)
                } else {
                    &&& error@ matches PlanErrorView::Section { name, flaw }
                    &&& flaw == SectionFault::Unknown
                    &&& section_table::is_first_name(unexpected(table@, views), name)
                },
            }
        }),
{
    let ghost views = plan::sections_view(expected@);
    let ghost whole = table@;
    let mut rest = table;
    let mut actual: Vec<Section> = Vec::with_capacity(expected.len());
    let mut index: usize = 0;
    proof {
        assert(unexpected(whole, views.take(0)) =~= whole);
    }
    while index < expected.len()
        invariant
            index <= expected@.len(),
            views == plan::sections_view(expected@),
            section_table::distinct(views),
            whole == table@,
            rest@ == unexpected(whole, views.take(index as int)),
            first_mismatch(whole, views.take(index as int)) is None,
            actual@.len() == index,
            forall|i: int|
                0 <= i < actual@.len() ==> (#[trigger] actual@[i])@ == whole[views[i].name]
                    && section_table::match_error(whole, views[i]) is None,
        decreases expected@.len() - index,
    {
        let ghost shorter = views.take(index as int);
        let ghost longer = views.take(index + 1);
        let ghost name = views[index as int].name;
        proof {
            assert(longer.drop_last() =~= shorter);
            assert(!section_table::named(shorter, name)) by {
                if section_table::named(shorter, name) {
                    let i = section_table::place(shorter, name);
                    assert(views[i].name != views[index as int].name);
                }
            }
            assert forall|n: Seq<char>| section_table::named(longer, n) == (
            section_table::named(shorter, n) || n == name) by {
                if section_table::named(longer, n) {
                    let i = section_table::place(longer, n);
                    if i < index {
                        assert(shorter[i].name == n);
                    }
                }
                if section_table::named(shorter, n) {
                    let i = section_table::place(shorter, n);
                    assert(longer[i].name == n);
                }
                assert(longer[index as int].name == name);
            }
            assert(unexpected(whole, shorter).remove(name) =~= unexpected(whole, longer));
            assert(section_table::match_error(rest@, views[index as int])
                == section_table::match_error(whole, views[index as int]));
            assert(whole.dom().contains(name) ==> rest@[name] == whole[name]);
        }
        match rest.take_matching(&expected[index]) {
            Ok(section) => {
                let ghost before = actual@;
                actual.push(section);
                proof {
                    assert(section_table::match_error(whole, views[index as int]) is None);
                    assert(whole.dom().contains(name));
                    assert(section@ == whole[name]);
                    assert forall|i: int| 0 <= i < actual@.len() implies (#[trigger] actual@[i])@
                        == whole[views[i].name] && section_table::match_error(whole, views[i])
                        is None by {
                        if i < index {
                            assert(actual@[i] == before[i]);
                        }
                    }
                }
            },
            Err(error) => {
                proof {
                    assert(first_mismatch(whole, longer) == Some(error@));
                    lemma_mismatch_stays(whole, views, index + 1);
                }
                return Err(error);
            },
        }
        index = index + 1;
    }
    proof {
        assert(views.take(index as int) =~= views);
    }
    match rest.first_name() {
        Some(name) => Err(PlanError::Section { name, flaw: SectionFault::Unknown }),
        None => Ok(actual),
    }
}

impl NumericVectors {
    /// Replaces every vector by the section of its name. The sections must be
    /// exactly those that the vectors have, in encoding and shape.
    pub fn apply(self, sections: Vec<Section>) -> (result: Result<NumericVectors, PlanError>)
        ensures
            ({
                let plan = plan::sections_view(sections@);
                let table = section_table::by_name(plan);
                let expected = self.sections();
                match result {
                    Ok(vectors) => {
                        &&& section_table::duplicate(plan) is None
                        &&& first_mismatch(table, expected) is None
                        &&& unexpected(table, expected) == Map::<Seq<char>, SectionView>::empty()
                        &&& forall|i: int|
                            0 <= i < SECTION_COUNT ==> #[trigger] vectors.sections()[i]
                                == table[expected[i].name]
                    },
                    Err(error) => if section_table::duplicate(plan) is Some {
                        error@ == (PlanErrorView::Section {
                            name: section_table::duplicate(plan)->0,
                            flaw: SectionFault::Duplicate,
                        })
                    } else if first_mismatch(table, expected) is Some {
                        first_mismatch(table, expected) == Some(error@)
                    } else {
                        &&& error@ matches PlanErrorView::Section { name, flaw }
                        &&& flaw == SectionFault::Unknown
                        &&& section_table::is_first_name(unexpected(table, expected), name)
                    },
                }
            }),
    {
        let expected: Vec<Section> = self.to_sections();
        proof {
            lemma_section_names(self);
        }
        let table: SectionTable = match SectionTable::from_sections(sections) {
            Ok(table) => table,
            Err(error) => return Err(error),
        };
        let actual: Vec<Section> = match take_all(table, &expected) {
            Ok(actual) => actual,
            Err(error) => return Err(error),
        };
        proof {
            let plan = plan::sections_view(sections@);
            let views = plan::sections_view(expected@);
            assert(views.len() == expected@.len());
            assert(self.sections().len() == SECTION_COUNT);
            assert forall|i: int| 0 <= i < SECTION_COUNT implies vectors::fits(
                (#[trigger] actual@[i])@,
                self.sections()[i],
            ) by {
                assert(actual@[i]@ == table@[views[i].name]);
                assert(section_table::named(plan, views[i].name));
                assert(plan[section_table::place(plan, views[i].name)].name == views[i].name);
            }
        }
        let vectors = self.replaced(&actual);
        proof {
            let views = plan::sections_view(expected@);
            assert forall|i: int| 0 <= i < SECTION_COUNT implies #[trigger] vectors.sections()[i]
                == table@[self.sections()[i].name] by {
                assert(vectors.sections()[i] == actual@[i]@);
                assert(views[i] == self.sections()[i]);
            }
        }
        Ok(vectors)
    }

    /// The vectors with the values of sections of their shapes.
    fn replaced(self, actual: &Vec<Section>) -> (vectors: NumericVectors)
        requires
            actual@.len() == SECTION_COUNT,
            forall|i: int|
                0 <= i < SECTION_COUNT ==> vectors::fits(
                    (#[trigger] actual@[i])@,
                    self.sections()[i],
                ),
        ensures
            forall|i: int|
                0 <= i < SECTION_COUNT ==> #[trigger] vectors.sections()[i] == actual@[i]@,
    {
        proof {
            reveal(NumericVectors::section);
        }
        let video_eq_fft_gain = replace_optional_f32(self.video_eq_fft_gain, &actual[0]);
        let chroma_afc_narrowband = replace_nested_sos(self.chroma_afc_narrowband, &actual[1]);
        let rf_chroma_heterodyne = replace_nested_f32(self.rf_chroma_heterodyne, &actual[2]);
        let rf_fsc_wave = replace_complex(self.rf_fsc_wave, &actual[3]);
        let chroma_burst_block_fft_gain = replace_f32(self.chroma_burst_block_fft_gain, &actual[4]);
        let chroma_filter_video_notch = replace_optional_sos(self.chroma_filter_video_notch, &actual[5]);
        let chroma_filter_deemphasis = replace_optional_sos(self.chroma_filter_deemphasis, &actual[6]);
        let chroma_filter_audio_notch = replace_optional_sos(self.chroma_filter_audio_notch, &actual[7]);
        let chroma_filter_final = replace_sos(self.chroma_filter_final, &actual[8]);
        let chroma_filter_secam_under = replace_optional_sos(self.chroma_filter_secam_under, &actual[9]);
        let video_rf_filter = replace_f32(self.video_rf_filter, &actual[10]);
        let video_notch_filter = replace_optional_f32(self.video_notch_filter, &actual[11]);
        let video_env_post_filter = replace_sos(self.video_env_post_filter, &actual[12]);
        let video_rf_top_fft_gain = replace_optional_f32(self.video_rf_top_fft_gain, &actual[13]);
        let video_filter = replace_complex(self.video_filter, &actual[14]);
        let video_nl_amplitude_lpf = replace_sos(self.video_nl_amplitude_lpf, &actual[15]);
        let video_nl_high_pass_f = replace_optional_complex(self.video_nl_high_pass_f, &actual[16]);
        let video_fsc_notch = replace_optional_sos(self.video_fsc_notch, &actual[17]);
        let video05_filter = replace_complex(self.video05_filter, &actual[18]);
        let resync_vsync_env_filter = replace_sos(self.resync_vsync_env_filter, &actual[19]);
        let resync_serration_filter_base_0 = replace_sos(self.resync_serration_filter_base_0, &actual[20]);
        let resync_serration_filter_base_1 = replace_sos(self.resync_serration_filter_base_1, &actual[21]);
        let resync_serration_filter_envelope = replace_sos(self.resync_serration_filter_envelope, &actual[22]);
        let vectors = NumericVectors {
            video_eq_fft_gain,
            chroma_afc_narrowband,
            rf_chroma_heterodyne,
            rf_fsc_wave,
            chroma_burst_block_fft_gain,
            chroma_filter_video_notch,
            chroma_filter_deemphasis,
            chroma_filter_audio_notch,
            chroma_filter_final,
            chroma_filter_secam_under,
            video_rf_filter,
            video_notch_filter,
            video_env_post_filter,
            video_rf_top_fft_gain,
            video_filter,
            video_nl_amplitude_lpf,
            video_nl_high_pass_f,
            video_fsc_notch,
            video05_filter,
            resync_vsync_env_filter,
            resync_serration_filter_base_0,
            resync_serration_filter_base_1,
            resync_serration_filter_envelope,
        };
        vectors
    }
}


proof fn lemma_distinct_unrepeated(sections: Seq<SectionView>)
    requires
        section_table::distinct(sections),
    ensures
        section_table::duplicate(sections) is None,
    decreases sections.len(),
{
    if sections.len() > 0 {
        let shorter = sections.drop_last();
        lemma_distinct_unrepeated(shorter);
        if section_table::named(shorter, sections.last().name) {
            let i = section_table::place(shorter, sections.last().name);
            assert(sections[i].name != sections[sections.len() - 1].name);
        }
    }
}

proof fn lemma_all_match(
    table: Map<Seq<char>, SectionView>,
    expected: Seq<SectionView>,
)
    requires
        forall|i: int|
            0 <= i < expected.len() ==> section_table::match_error(
                table,
                #[trigger] expected[i],
            ) is None,
    ensures
        first_mismatch(table, expected) is None,
    decreases expected.len(),
{
    if expected.len() > 0 {
        let shorter = expected.drop_last();
        assert forall|i: int| 0 <= i < shorter.len() implies section_table::match_error(
            table,
            #[trigger] shorter[i],
        ) is None by {
            assert(shorter[i] == expected[i]);
        }
        lemma_all_match(table, shorter);
        assert(section_table::match_error(table, expected[expected.len() - 1]) is None);
    }
}

/// The sections that one decoder writes are accepted by every decoder with
/// vectors of the same shapes, which then holds the very same bits.
pub proof fn law_apply_written(source: NumericVectors, target: NumericVectors)
    requires
        forall|i: int|
            0 <= i < SECTION_COUNT ==> vectors::fits(
                #[trigger] source.sections()[i],
                target.sections()[i],
            ),
    ensures
        section_table::duplicate(source.sections()) is None,
        first_mismatch(section_table::by_name(source.sections()), target.sections()) is None,
        unexpected(section_table::by_name(source.sections()), target.sections()) == Map::<
            Seq<char>,
            SectionView,
        >::empty(),
        forall|i: int|
            0 <= i < SECTION_COUNT ==> section_table::by_name(
                source.sections(),
            )[(#[trigger] target.sections()[i]).name] == source.sections()[i],
{
    let written = source.sections();
    let expected = target.sections();
    let table = section_table::by_name(written);
    lemma_section_names(source);
    lemma_distinct_unrepeated(written);
    assert forall|i: int| 0 <= i < expected.len() implies section_table::match_error(
        table,
        #[trigger] expected[i],
    ) is None && table[expected[i].name] == written[i] by {
        assert(vectors::fits(written[i], expected[i]));
        section_table::lemma_place(written, i);
    }
    lemma_all_match(table, expected);
    assert forall|name: Seq<char>| #[trigger] table.dom().contains(name) implies
        section_table::named(expected, name) by {
        let i = section_table::place(written, name);
        assert(section_table::named(written, name));
        assert(vectors::fits(written[i], expected[i]));
        assert(expected[i].name == name);
    }
    assert(unexpected(table, expected) =~= Map::<Seq<char>, SectionView>::empty());
}

/// The sections of a decoder have different names.
pub proof fn lemma_section_names(vectors: NumericVectors)
    ensures
        section_table::distinct(vectors.sections()),
{
    reveal(NumericVectors::section);
    reveal_strlit("video_eq_fft_gain");
    reveal_strlit("chroma_afc_narrowband");
    reveal_strlit("rf_chroma_heterodyne");
    reveal_strlit("rf_fsc_wave");
    reveal_strlit("chroma_burst_block_fft_gain");
    reveal_strlit("chroma_filter_video_notch");
    reveal_strlit("chroma_filter_deemphasis");
    reveal_strlit("chroma_filter_audio_notch");
    reveal_strlit("chroma_filter_final");
    reveal_strlit("chroma_filter_secam_under");
    reveal_strlit("video_rf_filter");
    reveal_strlit("video_notch_filter");
    reveal_strlit("video_env_post_filter");
    reveal_strlit("video_rf_top_fft_gain");
    reveal_strlit("video_filter");
    reveal_strlit("video_nl_amplitude_lpf");
    reveal_strlit("video_nl_high_pass_f");
    reveal_strlit("video_fsc_notch");
    reveal_strlit("video05_filter");
    reveal_strlit("resync_vsync_env_filter");
    reveal_strlit("resync_serration_filter_base_0");
    reveal_strlit("resync_serration_filter_base_1");
    reveal_strlit("resync_serration_filter_envelope");
    let s = vectors.sections();
    assert(s.len() == 23);
    assert(s[0].name == "video_eq_fft_gain"@);
    assert(s[1].name == "chroma_afc_narrowband"@);
    assert(s[2].name == "rf_chroma_heterodyne"@);
    assert(s[3].name == "rf_fsc_wave"@);
    assert(s[4].name == "chroma_burst_block_fft_gain"@);
    assert(s[5].name == "chroma_filter_video_notch"@);
    assert(s[6].name == "chroma_filter_deemphasis"@);
    assert(s[7].name == "chroma_filter_audio_notch"@);
    assert(s[8].name == "chroma_filter_final"@);
    assert(s[9].name == "chroma_filter_secam_under"@);
    assert(s[10].name == "video_rf_filter"@);
    assert(s[11].name == "video_notch_filter"@);
    assert(s[12].name == "video_env_post_filter"@);
    assert(s[13].name == "video_rf_top_fft_gain"@);
    assert(s[14].name == "video_filter"@);
    assert(s[15].name == "video_nl_amplitude_lpf"@);
    assert(s[16].name == "video_nl_high_pass_f"@);
    assert(s[17].name == "video_fsc_notch"@);
    assert(s[18].name == "video05_filter"@);
    assert(s[19].name == "resync_vsync_env_filter"@);
    assert(s[20].name == "resync_serration_filter_base_0"@);
    assert(s[21].name == "resync_serration_filter_base_1"@);
    assert(s[22].name == "resync_serration_filter_envelope"@);
    assert("chroma_afc_narrowband"@[0] != "video_env_post_filter"@[0]);
    assert("chroma_afc_narrowband"@[0] != "video_rf_top_fft_gain"@[0]);
    assert("rf_chroma_heterodyne"@[0] != "video_nl_high_pass_f"@[0]);
    assert("chroma_filter_video_notch"@[14] != "chroma_filter_audio_notch"@[14]);
    assert("chroma_filter_video_notch"@[14] != "chroma_filter_secam_under"@[14]);
    assert("chroma_filter_audio_notch"@[14] != "chroma_filter_secam_under"@[14]);
    assert("video_rf_filter"@[6] != "video_fsc_notch"@[6]);
    assert("video_env_post_filter"@[6] != "video_rf_top_fft_gain"@[6]);
    assert("resync_serration_filter_base_0"@[29] != "resync_serration_filter_base_1"@[29]);
}

} // verus!
