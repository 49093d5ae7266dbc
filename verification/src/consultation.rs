//! Legal consultations.

use vstd::prelude::*;
use crate::codec::{
    all_writable, kinds_of, lemma_fields_bytes_push, pop_flag, pop_optional_word64, pop_text,
    pop_word64, values_of, writable, Field, FieldValue, Kind,
};
use crate::ordering::Ranked;
use crate::region::RegionId;
use crate::search::Searchable;
use crate::record::{encoding, fits, text_view, valid, Record};

verus! {

/// A consultation that a client opened with an advisor.
#[derive(Clone, Debug, PartialEq, Eq)]
pub struct LegalConsultation {
    pub id: u64,
    /// The advisor consulted. Nothing checks that such an advisor is stored.
    pub advisor_id: u64,
    pub details: String,
    pub created_at: u64,
    pub closed_at: Option<u64>,
    pub is_completed: bool,
}

/// What a [`LegalConsultation`] holds, as a mathematical value.
pub struct ConsultationView {
    pub id: u64,
    pub advisor_id: u64,
    pub details: Seq<char>,
    pub created_at: u64,
    pub closed_at: Option<u64>,
    pub is_completed: bool,
}

impl View for LegalConsultation {
    type V = ConsultationView;

    open spec fn view(&self) -> ConsultationView {
        ConsultationView {
            id: self.id,
            advisor_id: self.advisor_id,
            details: self.details@,
            created_at: self.created_at,
            closed_at: self.closed_at,
            is_completed: self.is_completed,
        }
    }
}

impl Default for LegalConsultation {
    /// The consultation with id 0, opened at time 0 with advisor 0, with
    /// no details.
    fn default() -> (consultation: Self)
        ensures
            consultation@ == ConsultationView::opened(0, 0, Seq::empty(), 0),
    {
        LegalConsultation {
            id: 0,
            advisor_id: 0,
            details: String::new(),
            created_at: 0,
            closed_at: None,
            is_completed: false,
        }
    }
}

impl ConsultationView {
    /// A consultation as it is when it is opened: neither closed nor
    /// completed.
    pub open spec fn opened(id: u64, advisor_id: u64, details: Seq<char>, created_at: u64) -> Self {
        ConsultationView {
            id,
            advisor_id,
            details,
            created_at,
            closed_at: None,
            is_completed: false,
        }
    }

    /// The consultation with each of the given fields put in place of its
    /// own, and every other field as it was.
    pub open spec fn updated(
        self,
        advisor_id: Option<u64>,
        details: Option<Seq<char>>,
        is_completed: Option<bool>,
    ) -> Self {
        ConsultationView {
            advisor_id: if let Some(a) = advisor_id {
                a
            } else {
                self.advisor_id
            },
            details: if let Some(d) = details {
                d
            } else {
                self.details
            },
            is_completed: if let Some(c) = is_completed {
                c
            } else {
                self.is_completed
            },
            ..self
        }
    }

    /// The consultation marked as completed.
    pub open spec fn completed(self) -> Self {
        ConsultationView { is_completed: true, ..self }
    }

    /// The consultation closed at the given time.
    pub open spec fn closed(self, closed_at: u64) -> Self {
        ConsultationView { closed_at: Some(closed_at), ..self }
    }
}

/// An update changes the fields it is given and no others: the id, the
/// time of opening and the time of closing stay, and so does each field
/// for which the update holds nothing.
pub proof fn lemma_update_keeps_other_fields(
    consultation: ConsultationView,
    advisor_id: Option<u64>,
    details: Option<Seq<char>>,
    is_completed: Option<bool>,
)
    ensures
        ({
            let updated = consultation.updated(advisor_id, details, is_completed);
            &&& updated.id == consultation.id
            &&& updated.created_at == consultation.created_at
            &&& updated.closed_at == consultation.closed_at
            &&& updated.advisor_id == if let Some(a) = advisor_id {
                a
            } else {
                consultation.advisor_id
            }
            &&& updated.details == if let Some(d) = details {
                d
            } else {
                consultation.details
            }
            &&& updated.is_completed == if let Some(c) = is_completed {
                c
            } else {
                consultation.is_completed
            }
        }),
        consultation.updated(None, None, None) == consultation,
{
}

/// Completing changes the completion flag only, and a completed
/// consultation stays as it is when it is completed again.
pub proof fn lemma_completed_stays_completed(consultation: ConsultationView)
    ensures
        consultation.completed() == (ConsultationView { is_completed: true, ..consultation }),
        consultation.completed().completed() == consultation.completed(),
{
}

/// A completed consultation takes as many bytes as it took before, so
/// completing one that fits gives one that fits.
pub proof fn lemma_completing_keeps_size(consultation: ConsultationView)
    ensures
        encoding::<LegalConsultation>(consultation.completed()).len() == encoding::<
            LegalConsultation,
        >(consultation).len(),
        fits::<LegalConsultation>(consultation) ==> fits::<LegalConsultation>(
            consultation.completed(),
        ),
        valid::<LegalConsultation>(consultation) ==> valid::<LegalConsultation>(
            consultation.completed(),
        ),
{
    let before = LegalConsultation::fields(consultation);
    let after = LegalConsultation::fields(consultation.completed());
    let front = before.drop_last();
    assert(before =~= front.push(FieldValue::Flag(consultation.is_completed)));
    assert(after =~= front.push(FieldValue::Flag(true)));
    lemma_fields_bytes_push(front, FieldValue::Flag(consultation.is_completed));
    lemma_fields_bytes_push(front, FieldValue::Flag(true));
    assert forall|i: int| 0 <= i < after.len() && all_writable(before) implies writable(
        #[trigger] after[i],
    ) by {
        if i < 5 {
            assert(after[i] == before[i]);
        }
    }
}

/// Closing changes the time of closing only, and the last closing counts.
pub proof fn lemma_last_closing_counts(consultation: ConsultationView, first: u64, second: u64)
    ensures
        consultation.closed(first) == (ConsultationView {
            closed_at: Some(first),
            ..consultation
        }),
        consultation.closed(first).closed(second) == consultation.closed(second),
{
}

impl LegalConsultation {
    /// Opens a consultation.
    pub fn open(id: u64, advisor_id: u64, details: String, created_at: u64) -> (consultation: Self)
        ensures
            consultation@ == ConsultationView::opened(id, advisor_id, details@, created_at),
    {
        LegalConsultation {
            id,
            advisor_id,
            details,
            created_at,
            closed_at: None,
            is_completed: false,
        }
    }

    /// Puts each of the given fields in place of the consultation's own and
    /// leaves every other field as it was.
    pub fn update(
        self,
        advisor_id: Option<u64>,
        details: Option<String>,
        is_completed: Option<bool>,
    ) -> (consultation: Self)
        ensures
            consultation@ == self@.updated(advisor_id, text_view(details), is_completed),
    {
        let mut consultation = self;
        if let Some(a) = advisor_id {
            consultation.advisor_id = a;
        }
        if let Some(d) = details {
            consultation.details = d;
        }
        if let Some(c) = is_completed {
            consultation.is_completed = c;
        }
        consultation
    }

    /// Marks the consultation as completed.
    pub fn complete(self) -> (consultation: Self)
        ensures
            consultation@ == self@.completed(),
    {
        let mut consultation = self;
        consultation.is_completed = true;
        consultation
    }

    /// Closes the consultation at the given time, whatever it was before.
    pub fn close(self, closed_at: u64) -> (consultation: Self)
        ensures
            consultation@ == self@.closed(closed_at),
    {
        let mut consultation = self;
        consultation.closed_at = Some(closed_at);
        consultation
    }
}

impl Record for LegalConsultation {
    open spec fn tag() -> u8 {
        1
    }

    open spec fn schema() -> Seq<Kind> {
        seq![
            Kind::Word64,
            Kind::Word64,
            Kind::Text,
            Kind::Word64,
            Kind::OptionalWord64,
            Kind::Flag,
        ]
    }

    open spec fn fields(value: ConsultationView) -> Seq<FieldValue> {
        seq![
            FieldValue::Word64(value.id),
            FieldValue::Word64(value.advisor_id),
            FieldValue::Text(value.details),
            FieldValue::Word64(value.created_at),
            FieldValue::OptionalWord64(value.closed_at),
            FieldValue::Flag(value.is_completed),
        ]
    }

    open spec fn key(value: ConsultationView) -> u64 {
        value.id
    }

    open spec fn label() -> Seq<char> {
        "Legal consultation"@
    }

    open spec fn region() -> RegionId {
        RegionId::Consultations
    }

    fn tag_byte() -> (tag: u8) {
        1
    }

    fn kinds() -> (kinds: Vec<Kind>) {
        let kinds = vec![
            Kind::Word64,
            Kind::Word64,
            Kind::Text,
            Kind::Word64,
            Kind::OptionalWord64,
            Kind::Flag,
        ];
        assert(kinds@ =~= Self::schema());
        kinds
    }

    fn name() -> (name: &'static str) {
        "Legal consultation"
    }

    fn region_id() -> (region: RegionId) {
        RegionId::Consultations
    }

    fn key_of(&self) -> (key: u64) {
        self.id
    }

    fn to_fields(&self) -> (fields: Vec<Field>) {
        let mut fields: Vec<Field> = Vec::new();
        fields.push(Field::Word64(self.id));
        fields.push(Field::Word64(self.advisor_id));
        fields.push(Field::Text(self.details.clone()));
        fields.push(Field::Word64(self.created_at));
        fields.push(Field::OptionalWord64(self.closed_at));
        fields.push(Field::Flag(self.is_completed));
        assert(values_of(fields@) =~= Self::fields(self@));
        fields
    }

    fn from_fields(fields: Vec<Field>) -> (record: Self) {
        let mut fields = fields;
        let ghost values = values_of(fields@);
        assert(values.len() == kinds_of(values).len());
        assert(forall|i: int| 0 <= i < 6 ==> kinds_of(values)[i] == Self::schema()[i]);
        assert(forall|i: int| 0 <= i < 6 ==> values[i] == fields@[i]@);
        let is_completed = pop_flag(&mut fields);
        let closed_at = pop_optional_word64(&mut fields);
        let created_at = pop_word64(&mut fields);
        let details = pop_text(&mut fields);
        let advisor_id = pop_word64(&mut fields);
        let id = pop_word64(&mut fields);
        let record = LegalConsultation {
            id,
            advisor_id,
            details,
            created_at,
            closed_at,
            is_completed,
        };
        assert(Self::fields(record@) =~= values);
        record
    }

    proof fn lemma_schema(value: ConsultationView) {
        assert(kinds_of(Self::fields(value)) =~= Self::schema());
    }

    proof fn lemma_fields_injective(a: ConsultationView, b: ConsultationView) {
        let fa = Self::fields(a);
        let fb = Self::fields(b);
        assert(fa[0] == fb[0]);
        assert(fa[1] == fb[1]);
        assert(fa[2] == fb[2]);
        assert(fa[3] == fb[3]);
        assert(fa[4] == fb[4]);
        assert(fa[5] == fb[5]);
    }
}

/// Consultations are ordered by the time they were opened, earliest first.
impl Ranked for LegalConsultation {
    open spec fn rank(value: ConsultationView) -> u64 {
        value.created_at
    }

    fn rank_of(&self) -> (rank: u64) {
        self.created_at
    }
}

/// Consultations are searched by their details.
impl Searchable for LegalConsultation {
    open spec fn searched(value: ConsultationView) -> Seq<char> {
        value.details
    }

    fn searched_text(&self) -> (text: &str) {
        self.details.as_str()
    }
}

} // verus!
