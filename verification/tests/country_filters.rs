use teamwork_launcher::application::country::Country;
use teamwork_launcher::application::country_filter::CountryFilter;
use teamwork_launcher::application::promised_value::PromisedValue;

#[test]
fn countries_are_listed_once_by_name() {
    let mut filter = CountryFilter::default();
    filter.add_available(Country::new("FR"));
    filter.add_available(Country::new("DE"));
    filter.add_available(Country::new("FR"));
    filter.add_available(Country::new("AT"));

    let names: Vec<String> = filter.available_countries().iter().map(|c| c.name()).collect();
    assert_eq!(names, vec!["Austria".to_string(), "France".to_string(), "Germany".to_string()]);
}

#[test]
fn countries_with_a_state_stay_listed() {
    let mut filter = CountryFilter::default();
    filter.add_available(Country::new("FR"));
    filter.set_checked(&Country::new("DE"), false);
    filter.clear_available();

    let codes: Vec<String> = filter.available_countries().iter().map(|c| c.code().to_string()).collect();
    assert_eq!(codes, vec!["FR".to_string(), "DE".to_string()]);
}

#[test]
fn unknown_code_is_listed_under_its_code() {
    let country = Country::new("ZZ");
    assert_eq!(country.name(), "ZZ");
}

#[test]
fn new_country_is_checked_and_accepted() {
    let mut filter = CountryFilter::default();
    filter.set_enabled(true);
    filter.add_available(Country::new("FR"));
    assert!(filter.accept(&PromisedValue::Ready(Country::new("FR"))));
    filter.set_checked(&Country::new("FR"), false);
    assert!(!filter.accept(&PromisedValue::Ready(Country::new("FR"))));
    assert!(filter.accept(&PromisedValue::Loading));
    filter.set_accept_no_country(false);
    assert!(!filter.accept(&PromisedValue::Absent));
}
