use vstd::prelude::*;

verus! {

/// Number of columns in the source table, and of fields in a [`Record`].
pub const FIELD_COUNT: usize = 17;

/// One evacuation-facility hazard-designation row.
///
/// Every field is kept as raw text: the source cells are not guaranteed to be
/// clean numeric or boolean literals, so even the coordinate and flag columns
/// pass through unchanged. The field order is the fixed column order of the
/// source table. The fields carry ASCII names in code; in the JSON output
/// each member is named by the source table's literal column label, in this
/// same order (see [`crate::json::spec_field_keys`]).
pub struct Record {
    pub code: String,
    pub name: String,
    pub number_in_municipality: String,
    pub facility_name: String,
    pub address: String,
    pub flood: String,
    pub landslide: String,
    pub high_tide: String,
    pub earthquake: String,
    pub tsunami: String,
    pub large_fire: String,
    pub inland_flood: String,
    pub volcanic_phenomena: String,
    pub same_address_as_shelter: String,
    pub latitude: String,
    pub longitude: String,
    pub remarks: String,
}

impl View for Record {
    type V = Seq<Seq<char>>;

    /// A record is seventeen character sequences, in schema order.
    open spec fn view(&self) -> Seq<Seq<char>> {
        seq![
            self.code@,
            self.name@,
            self.number_in_municipality@,
            self.facility_name@,
            self.address@,
            self.flood@,
            self.landslide@,
            self.high_tide@,
            self.earthquake@,
            self.tsunami@,
            self.large_fire@,
            self.inland_flood@,
            self.volcanic_phenomena@,
            self.same_address_as_shelter@,
            self.latitude@,
            self.longitude@,
            self.remarks@,
        ]
    }
}

impl DeepView for Record {
    type V = Seq<Seq<char>>;

    open spec fn deep_view(&self) -> Seq<Seq<char>> {
        self.view()
    }
}

impl Record {
    /// Builds a record from the seventeen column values of one row,
    /// in schema order.
    pub fn from_fields(fields: &Vec<String>) -> (r: Record)
        requires
            fields.len() == FIELD_COUNT,
        ensures
            r@ == fields.deep_view(),
    {
        let r = Record {
            code: fields[0].clone(),
            name: fields[1].clone(),
            number_in_municipality: fields[2].clone(),
            facility_name: fields[3].clone(),
            address: fields[4].clone(),
            flood: fields[5].clone(),
            landslide: fields[6].clone(),
            high_tide: fields[7].clone(),
            earthquake: fields[8].clone(),
            tsunami: fields[9].clone(),
            large_fire: fields[10].clone(),
            inland_flood: fields[11].clone(),
            volcanic_phenomena: fields[12].clone(),
            same_address_as_shelter: fields[13].clone(),
            latitude: fields[14].clone(),
            longitude: fields[15].clone(),
            remarks: fields[16].clone(),
        };
        proof {
            assert(r@ =~= fields.deep_view());
        }
        r
    }

    /// The record's field at schema position `i`.
    pub fn field(&self, i: usize) -> (f: &String)
        requires
            i < FIELD_COUNT,
        ensures
            f@ == self@[i as int],
    {
        if i == 0 {
            &self.code
        } else if i == 1 {
            &self.name
        } else if i == 2 {
            &self.number_in_municipality
        } else if i == 3 {
            &self.facility_name
        } else if i == 4 {
            &self.address
        } else if i == 5 {
            &self.flood
        } else if i == 6 {
            &self.landslide
        } else if i == 7 {
            &self.high_tide
        } else if i == 8 {
            &self.earthquake
        } else if i == 9 {
            &self.tsunami
        } else if i == 10 {
            &self.large_fire
        } else if i == 11 {
            &self.inland_flood
        } else if i == 12 {
            &self.volcanic_phenomena
        } else if i == 13 {
            &self.same_address_as_shelter
        } else if i == 14 {
            &self.latitude
        } else if i == 15 {
            &self.longitude
        } else {
            &self.remarks
        }
    }

    /// The record's seventeen field values, in schema order.
    pub fn to_fields(&self) -> (v: Vec<String>)
        ensures
            v.deep_view() == self@,
            v.len() == FIELD_COUNT,
    {
        let v = vec![
            self.code.clone(),
            self.name.clone(),
            self.number_in_municipality.clone(),
            self.facility_name.clone(),
            self.address.clone(),
            self.flood.clone(),
            self.landslide.clone(),
            self.high_tide.clone(),
            self.earthquake.clone(),
            self.tsunami.clone(),
            self.large_fire.clone(),
            self.inland_flood.clone(),
            self.volcanic_phenomena.clone(),
            self.same_address_as_shelter.clone(),
            self.latitude.clone(),
            self.longitude.clone(),
            self.remarks.clone(),
        ];
        proof {
            assert(v.deep_view() =~= self@);
        }
        v
    }
}

} // verus!
