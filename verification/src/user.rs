//! An example record type bound to the reading and processing capabilities:
//! one row of a user table, decoded from the columns `name`, `email` and
//! `age`, and processed by uppercasing the name and the email.

use crate::item_processor::Process;
use crate::item_reader;
use crate::text;
use crate::Read;
use vstd::prelude::*;

verus! {

/// One decoded row of a user table.
pub struct User {
    pub name: String,
    pub email: String,
    pub age: u8,
}

/// The view of a `User`: its fields as mathematical values.
pub ghost struct UserView {
    pub name: Seq<char>,
    pub email: Seq<char>,
    pub age: u8,
}

impl View for User {
    type V = UserView;

    open spec fn view(&self) -> UserView {
        UserView { name: self.name@, email: self.email@, age: self.age }
    }
}

/// The entry of the value row at the last position where the header row
/// names `key` and the value row still has an entry, if there is any such
/// position. A later occurrence of a header name overwrites an earlier one.
pub open spec fn last_value_for(
    headers: Seq<Seq<char>>,
    values: Seq<Seq<char>>,
    key: Seq<char>,
) -> Option<Seq<char>>
    decreases headers.len(),
{
    if headers.len() == 0 {
        None
    } else if headers.last() == key && headers.len() - 1 < values.len() {
        Some(values[headers.len() - 1])
    } else {
        last_value_for(headers.drop_last(), values, key)
    }
}

/// The `age` column of a row, parsed: nothing when the column is absent or
/// its last value does not parse.
pub open spec fn age_field(headers: Seq<Seq<char>>, values: Seq<Seq<char>>) -> Option<u8> {
    match last_value_for(headers, values, "age"@) {
        Some(a) => text::parse_u8_spec(a),
        None => None,
    }
}

impl Read for User {
    /// A row decodes exactly when all three fields are covered: `name` and
    /// `email` are taken verbatim, `age` must parse as a number; a row
    /// leaving any field undecoded yields no record at all.
    open spec fn decode_spec(headers: Seq<Seq<char>>, values: Seq<Seq<char>>) -> Option<UserView> {
        match (
            last_value_for(headers, values, "name"@),
            last_value_for(headers, values, "email"@),
            age_field(headers, values),
        ) {
            (Some(n), Some(e), Some(a)) => Some(UserView { name: n, email: e, age: a }),
            _ => None,
        }
    }

    fn read_file(headers: &[&str], values: &[&str]) -> (r: Option<User>) {
        let ghost hs = text::rows_view(headers@);
        let ghost vs = text::rows_view(values@);
        let mut name: Option<String> = None;
        let mut email: Option<String> = None;
        let mut age: Option<u8> = None;
        proof {
            reveal_strlit("name");
            reveal_strlit("email");
            reveal_strlit("age");
            assert(hs.take(0) =~= Seq::<Seq<char>>::empty());
        }
        let mut i: usize = 0;
        while i < headers.len()
            invariant
                hs == text::rows_view(headers@),
                vs == text::rows_view(values@),
                i <= headers@.len(),
                match name {
                    Some(n) => Some(n@) == last_value_for(hs.take(i as int), vs, "name"@),
                    None => last_value_for(hs.take(i as int), vs, "name"@) is None,
                },
                match email {
                    Some(e) => Some(e@) == last_value_for(hs.take(i as int), vs, "email"@),
                    None => last_value_for(hs.take(i as int), vs, "email"@) is None,
                },
                age == age_field(hs.take(i as int), vs),
            decreases headers@.len() - i,
        {
            proof {
                reveal_strlit("name");
                reveal_strlit("email");
                reveal_strlit("age");
                assert(hs.take(i + 1).drop_last() =~= hs.take(i as int));
                assert(hs.take(i + 1).last() == hs[i as int]);
            }
            if i < values.len() {
                let header = headers[i];
                let value = values[i];
                if text::str_eq(header, "name") {
                    name = Some(String::from_str(value));
                } else if text::str_eq(header, "email") {
                    email = Some(String::from_str(value));
                } else if text::str_eq(header, "age") {
                    age = text::parse_u8(value);
                }
            }
            i += 1;
        }
        proof {
            assert(hs.take(headers@.len() as int) =~= hs);
        }
        match (name, email, age) {
            (Some(n), Some(e), Some(a)) => Some(User { name: n, email: e, age: a }),
            _ => None,
        }
    }
}

/// Decoding round-trips: a file made of the header row `name;email;age` and
/// one data row whose fields hold neither the delimiter nor a line break,
/// and whose age parses, reads as exactly one record whose fields equal the
/// row's values, the age parsed numerically.
pub proof fn lemma_round_trip(name: Seq<char>, email: Seq<char>, age: Seq<char>, age_val: u8)
    requires
        forall|i: int|
            0 <= i < name.len() ==> name[i] != ';' && name[i] != '\n' && name[i] != '\r',
        forall|i: int|
            0 <= i < email.len() ==> email[i] != ';' && email[i] != '\n' && email[i] != '\r',
        text::parse_u8_spec(age) == Some(age_val),
    ensures
        item_reader::read_spec::<User>(
            "name;email;age"@ + seq!['\n'] + (name + seq![';'] + email + seq![';'] + age),
            ";"@,
        ) == Some(seq![UserView { name, email, age: age_val }]),
{
    reveal_strlit("name;email;age");
    reveal_strlit(";");
    reveal_strlit("name");
    reveal_strlit("email");
    reveal_strlit("age");
    let header = "name;email;age"@;
    let semi = seq![';'];
    let row = name + semi + email + semi + age;
    let content = header + seq!['\n'] + row;

    // The age text is non-empty and holds only digits after an optional
    // leading plus sign, so none of its characters is a delimiter, a line
    // break or a carriage return.
    let t = if age.len() > 0 && age[0] == '+' {
        age.skip(1)
    } else {
        age
    };
    assert(t.len() > 0 && text::all_digits(t));
    assert forall|i: int| 0 <= i < age.len() implies age[i] != ';' && age[i] != '\n' && age[i]
        != '\r' by {
        if age[0] == '+' {
            if i > 0 {
                assert(age[i] == t[i - 1]);
                assert(text::is_digit(t[i - 1]));
            }
        } else {
            assert(text::is_digit(t[i]));
        }
    }
    assert(age.len() > 0);
    assert(age.last() != '\n' && age.last() != '\r');

    // The text splits into exactly the header line and the data row.
    assert(content.last() == age.last());
    assert(content.last() != '\n');
    assert forall|i: int| 0 <= i < header.len() implies header[i] != '\n' by {}
    assert forall|i: int| 0 <= i < row.len() implies row[i] != '\n' by {
        if i < name.len() {
            assert(row[i] == name[i]);
        } else if i == name.len() {
            assert(row[i] == ';');
        } else if i < name.len() + 1 + email.len() {
            assert(row[i] == email[i - name.len() - 1]);
        } else if i == name.len() + 1 + email.len() {
            assert(row[i] == ';');
        } else {
            assert(row[i] == age[i - name.len() - email.len() - 2]);
        }
    }
    text::lemma_split_char_concat(header, '\n', row);
    text::lemma_split_char_none(row, '\n');
    assert(text::split_spec(content, seq!['\n']) == seq![header] + seq![row]);
    assert(header.last() != '\r');
    assert(row.last() == age.last());
    let ls = text::lines_spec(content);
    assert(ls =~= seq![header, row]) by {
        assert((seq![header] + seq![row])[0] == header);
        assert((seq![header] + seq![row])[1] == row);
        assert(text::strip_cr(header) == header);
        assert(text::strip_cr(row) == row);
    }

    // The header row splits into the three column names.
    assert(";"@ =~= semi);
    assert(header =~= "name"@ + semi + ("email"@ + semi + "age"@));
    assert forall|i: int| 0 <= i < "name"@.len() implies "name"@[i] != ';' by {}
    assert forall|i: int| 0 <= i < "email"@.len() implies "email"@[i] != ';' by {}
    assert forall|i: int| 0 <= i < "age"@.len() implies "age"@[i] != ';' by {}
    text::lemma_split_char_concat("name"@, ';', "email"@ + semi + "age"@);
    text::lemma_split_char_concat("email"@, ';', "age"@);
    text::lemma_split_char_none("age"@, ';');
    let hs = seq!["name"@, "email"@, "age"@];
    assert(text::split_spec(header, semi) =~= hs);

    // The data row splits into the three field values.
    assert(row =~= name + semi + (email + semi + age));
    text::lemma_split_char_concat(name, ';', email + semi + age);
    text::lemma_split_char_concat(email, ';', age);
    text::lemma_split_char_none(age, ';');
    let vs = seq![name, email, age];
    assert(text::split_spec(row, semi) =~= vs);

    // The row is not blank: it holds the delimiter.
    assert(row[name.len() as int] == ';');
    assert(!text::is_space(';'));
    assert(!text::is_blank_spec(row));

    // Decoding the row fills each field from its column.
    assert(hs.drop_last() =~= seq!["name"@, "email"@]);
    assert(seq!["name"@, "email"@].drop_last() =~= seq!["name"@]);
    assert("age"@ != "name"@ && "email"@ != "name"@);
    assert(seq!["name"@].last() == "name"@);
    assert(vs[0] == name && vs[1] == email && vs[2] == age);
    assert(last_value_for(seq!["name"@], vs, "name"@) == Some(name));
    assert(last_value_for(seq!["name"@, "email"@], vs, "name"@) == Some(name));
    assert(last_value_for(hs, vs, "name"@) == Some(name));
    assert("age"@ != "email"@);
    assert(seq!["name"@, "email"@].last() == "email"@);
    assert(last_value_for(seq!["name"@, "email"@], vs, "email"@) == Some(email));
    assert(last_value_for(hs, vs, "email"@) == Some(email));
    assert(hs.last() == "age"@);
    assert(last_value_for(hs, vs, "age"@) == Some(age));
    assert(User::decode_spec(hs, vs) == Some(UserView { name, email, age: age_val }));

    // The one data row yields the one record.
    assert(ls.skip(1) =~= seq![row]);
    assert(seq![row].drop_last() =~= Seq::<Seq<char>>::empty());
    assert(item_reader::decode_rows_spec::<User>(Seq::<Seq<char>>::empty(), hs, semi)
        == Seq::<UserView>::empty());
    assert(seq![row].last() == row);
    assert(item_reader::row_records::<User>(row, hs, semi) =~= seq![
        UserView { name, email, age: age_val },
    ]);
    assert(item_reader::decode_rows_spec::<User>(seq![row], hs, semi) =~= seq![
        UserView { name, email, age: age_val },
    ]);
    assert(text::split_spec(ls[0], ";"@) == hs);
}

impl Process for User {
    /// Processing uppercases the name and the email (ASCII) and keeps the
    /// age.
    open spec fn process_item(v: UserView) -> UserView {
        UserView {
            name: text::upper_seq(v.name),
            email: text::upper_seq(v.email),
            age: v.age,
        }
    }

    fn process(data: &mut Vec<User>) {
        let n = data.len();
        let mut out: Vec<User> = Vec::new();
        let mut i: usize = 0;
        while i < n
            invariant
                n == old(data)@.len(),
                data@ == old(data)@,
                i <= n,
                out@.len() == i,
                forall|k: int|
                    0 <= k < i ==> (#[trigger] out@[k])@ == Self::process_item(old(data)@[k]@),
            decreases n - i,
        {
            let u = &data[i];
            let name = text::to_upper(u.name.as_str());
            let email = text::to_upper(u.email.as_str());
            let age = u.age;
            out.push(User { name, email, age });
            i += 1;
        }
        *data = out;
    }
}

} // verus!
