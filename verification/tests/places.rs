use priceshark::address::State;
use priceshark::images::{search_address, search_query, wants_image, Image};
use priceshark::localities::{locality, refine_address, AddressError, OsmType, RawAddress};
use priceshark::OsmId;

fn raw(state: &str, postcode: Option<&str>, suburb: Option<&str>, town: Option<&str>, city: Option<&str>) -> RawAddress {
    RawAddress {
        state_code: state.to_string(),
        postcode: postcode.map(|x| x.to_string()),
        suburb: suburb.map(|x| x.to_string()),
        town: town.map(|x| x.to_string()),
        city: city.map(|x| x.to_string()),
    }
}

#[test]
fn addresses_are_refined() {
    let a = refine_address(raw(
        "AU-NSW",
        Some("2000"),
        Some("Haymarket"),
        Some("District of District of Sydney"),
        Some("Sydney City Council"),
    ))
    .unwrap();
    assert_eq!(a.state, State::NSW);
    assert_eq!(a.postcode, Some("2000".to_string()));
    assert_eq!(a.places, vec!["Haymarket".to_string(), "Sydney".to_string(), "Sydney".to_string()]);
    let b = refine_address(raw("AU-WA", None, None, None, Some("Swan City City"))).unwrap();
    assert_eq!(b.places, vec!["Swan".to_string()]);
    assert_eq!(b.postcode, None);
    let c = refine_address(raw("AU-VIC", None, None, None, Some("City Council City"))).unwrap();
    assert_eq!(c.places, vec!["City Council".to_string()]);
    assert_eq!(
        refine_address(raw("AU-XYZ", Some("20"), None, None, None)).unwrap_err(),
        AddressError::UnknownState
    );
    assert_eq!(
        refine_address(raw("AU-SA", Some("50o0"), None, None, None)).unwrap_err(),
        AddressError::PostcodeNumber
    );
    assert_eq!(
        refine_address(raw("AU-SA", Some("500"), None, None, None)).unwrap_err(),
        AddressError::PostcodeLength
    );
    assert_eq!(
        refine_address(raw("AU-SA", Some("05000"), None, None, None)).unwrap_err(),
        AddressError::PostcodeLength
    );
    assert!(refine_address(raw("AU-SA", Some("+500"), None, None, None)).is_ok());
}

fn pairs(raw: &[(&str, &str)]) -> Vec<(String, String)> {
    raw.iter().map(|(k, v)| (k.to_string(), v.to_string())).collect()
}

#[test]
fn localities_are_named() {
    assert_eq!(
        locality(&pairs(&[("city", "Greater Brisbane"), ("town", "District of Inala"), ("road", "x")])),
        "Inala, Brisbane"
    );
    assert_eq!(locality(&pairs(&[("city", "Gold Coast City")])), "Gold Coast");
    assert_eq!(locality(&pairs(&[("district", "Sunshine Coast Regional")])), "Sunshine Coast");
    assert_eq!(
        locality(&pairs(&[
            ("village", "A"),
            ("town", "B City Council"),
            ("district", "C"),
            ("city", "D")
        ])),
        "A, B, C, D"
    );
    assert_eq!(locality(&pairs(&[("city", "Greater Brisbane City Council")])), "Brisbane");
    assert_eq!(locality(&pairs(&[("road", "x")])), "");
    assert_eq!(locality(&pairs(&[("town", ""), ("city", "X")])), "X");
    assert_eq!(OsmType::Node.osm_id(4), OsmId::Node(4));
    assert_eq!(OsmType::Way.osm_id(5), OsmId::Way(5));
    assert_eq!(OsmType::Relation.osm_id(6), OsmId::Relation(6));
}

#[test]
fn pictures_are_searched_for_and_recorded() {
    let tags = vec!["container/bottle".to_string(), "drink".to_string(), "container/glass jar".to_string()];
    let query = search_query("Cola", "2 L", &tags);
    assert_eq!(query, "Cola 2 L bottle glass jar");
    assert_eq!(
        search_address(&query),
        "https://duckduckgo.com/?q=Cola+2+L+bottle+glass+jar"
    );
    assert_eq!(
        search_address("a&b=c/d é*-._~"),
        "https://duckduckgo.com/?q=a%26b%3Dc%2Fd+%C3%A9*-._%7E"
    );
    let image = Image::of("https://example.com/a.png".to_string(), b"hello");
    assert_eq!(image.url, "https://example.com/a.png");
    assert_eq!(
        image.hash,
        "2cf24dba5fb0a30e26e83b2ac5b9e29e1b161e5c1fa7425e73043362938b9824"
    );
    assert_eq!(
        Image::new("u".to_string(), "h".to_string()),
        Image { url: "u".to_string(), hash: "h".to_string() }
    );
    assert!(wants_image(&None, &vec!["x".to_string()]));
    assert!(!wants_image(&None, &Vec::new()));
    assert!(!wants_image(&Some(image), &vec!["x".to_string()]));
}
