use supply_chain::ocw_weather::{
    Error as WeatherError, Event as WeatherEvent, FetchEnd, FetchStep, Module as Weather,
    RemoteReply, TransactionType, WeatherForecast, WeatherInfo, HTTP_OK, KELVIN_OFFSET,
    NUM_VEC_LEN,
};
use supply_chain::organizations::{
    Event as OrgEvent, Module as Organizations, ValidatorEnrolment, VALIDATOR_DELEGATE_BLOCKS,
};
use supply_chain::system::{ensure_admitted, ensure_root, ensure_signed, DispatchError, Origin};
use supply_chain::table::{copy_bytes, copy_ids, same_bytes};
use supply_chain::template::{Error, Event, FunctionSelector, Module};

#[test]
fn selector_bytes_and_identifier() {
    let selector = FunctionSelector([0x78, 0x56, 0x34, 0x12]);
    assert_eq!(selector.as_bytes(), &[0x78, 0x56, 0x34, 0x12]);
    assert_eq!(selector.unique_id(), 0x12345678);
    assert_eq!(FunctionSelector([0, 0, 0, 0]).unique_id(), 0);
    assert_eq!(FunctionSelector([1, 0, 0, 0]).unique_id(), 1);
    assert_eq!(FunctionSelector([0, 1, 0, 0]).unique_id(), 256);
    assert_eq!(FunctionSelector([0xff; 4]).unique_id(), 0xffff_ffff);
    assert_eq!(
        FunctionSelector([9, 8, 7, 6]).unique_id(),
        u32::from_le_bytes([9, 8, 7, 6]) as usize
    );
}

#[test]
fn selector_is_the_start_of_the_hash() {
    let mut hash = [0u8; 32];
    for (i, b) in hash.iter_mut().enumerate() {
        *b = 10 + i as u8;
    }
    assert_eq!(FunctionSelector::from_hash(&hash), FunctionSelector([10, 11, 12, 13]));
}

#[test]
fn template_stores_a_number_for_a_signed_caller() {
    let mut module = Module::new();
    assert_eq!(module.something(), None);
    assert_eq!(module.do_something(Origin::Unsigned, 5), Err(DispatchError::BadOrigin));
    assert_eq!(module.something(), None);
    assert_eq!(module.do_something(Origin::Signed(3), 5), Ok(Event::SomethingStored(5, 3)));
    assert_eq!(module.something(), Some(5));
}

#[test]
fn template_counts_up_to_the_largest_number() {
    let mut module = Module::new();
    assert_eq!(module.cause_error(Origin::Root), Err(DispatchError::BadOrigin));
    assert_eq!(module.cause_error(Origin::Signed(1)), Err(DispatchError::Module(Error::NoneValue)));
    module.do_something(Origin::Signed(1), u32::MAX - 1).unwrap();
    assert_eq!(module.cause_error(Origin::Signed(1)), Ok(()));
    assert_eq!(module.something(), Some(u32::MAX));
    assert_eq!(module.cause_error(Origin::Signed(1)), Err(DispatchError::Module(Error::StorageOverflow)));
    assert_eq!(module.something(), Some(u32::MAX));
}

#[test]
fn organizations_stores_a_number_and_enrols_the_validator() {
    assert_eq!(VALIDATOR_DELEGATE_BLOCKS, 1000);
    let mut module = Organizations::new();
    assert_eq!(module.do_something(Origin::Unsigned, 5, 9), Err(DispatchError::BadOrigin));
    assert_eq!(module.something(), None);
    assert_eq!(
        module.do_something(Origin::Signed(3), 5, 9),
        Ok((
            ValidatorEnrolment {
                identity: 3,
                delegate: 9,
                delegate_type: b"validator".to_vec(),
                valid_for: 1000
            },
            OrgEvent::SomethingStored(5, 3)
        ))
    );
    assert_eq!(module.something(), Some(5));
    assert_eq!(module.cause_error(Origin::Signed(3)), Ok(()));
    assert_eq!(module.something(), Some(6));
    let mut empty = Organizations::new();
    assert_eq!(empty.cause_error(Origin::Signed(3)), Err(DispatchError::Module(Error::NoneValue)));
    empty.do_something(Origin::Signed(3), u32::MAX, 9).unwrap();
    assert_eq!(empty.cause_error(Origin::Signed(3)), Err(DispatchError::Module(Error::StorageOverflow)));
}

#[test]
fn numbers_fill_up_and_then_the_first_is_replaced() {
    assert_eq!(NUM_VEC_LEN, 10);
    let mut weather = Weather::new();
    for n in 1..=10u32 {
        assert_eq!(weather.append_or_replace_number(None, n), WeatherEvent::NewNumber(None, n));
    }
    assert_eq!(weather.numbers, (1..=10).collect::<Vec<u32>>());
    assert_eq!(weather.average(), 5);
    weather.append_or_replace_number(Some(4), 11);
    assert_eq!(weather.numbers, vec![11, 2, 3, 4, 5, 6, 7, 8, 9, 10]);
    weather.append_or_replace_number(Some(4), 12);
    assert_eq!(weather.numbers, vec![12, 2, 3, 4, 5, 6, 7, 8, 9, 10]);
    assert_eq!(weather.average(), 6);
}

#[test]
fn a_longer_list_is_replaced_at_its_length_modulo_ten() {
    let mut weather = Weather { numbers: (0..13).collect() };
    weather.append_or_replace_number(None, 99);
    let mut expected: Vec<u32> = (0..13).collect();
    expected[3] = 99;
    assert_eq!(weather.numbers, expected);
}

#[test]
fn average_of_numbers() {
    assert_eq!(Weather::new().average(), 0);
    assert_eq!(Weather { numbers: vec![7] }.average(), 7);
    assert_eq!(Weather { numbers: vec![1, 2] }.average(), 1);
    assert_eq!(Weather { numbers: vec![u32::MAX, u32::MAX, u32::MAX] }.average(), u32::MAX);
}

#[test]
fn numbers_are_submitted_by_signed_callers() {
    let mut weather = Weather::new();
    assert_eq!(weather.submit_number_signed(Origin::Unsigned, 3), Err(DispatchError::BadOrigin));
    assert_eq!(weather.numbers, Vec::<u32>::new());
    assert_eq!(
        weather.submit_number_signed(Origin::Signed(8), 3),
        Ok(WeatherEvent::NewNumber(Some(8), 3))
    );
    assert_eq!(weather.numbers, vec![3]);
}

#[test]
fn worker_alternates_between_submitting_and_fetching() {
    assert_eq!(Weather::choose_tx_type(0), TransactionType::SignedSubmitNumber);
    assert_eq!(Weather::choose_tx_type(1), TransactionType::HttpFetching);
    assert_eq!(Weather::choose_tx_type(2), TransactionType::SignedSubmitNumber);
    assert_eq!(Weather::choose_tx_type(u32::MAX), TransactionType::HttpFetching);
    assert_eq!(Weather::submission(41), 41);
}

#[test]
fn lock_is_taken_when_free_or_never_set() {
    assert_eq!(Weather::try_lock(None), Ok(true));
    assert_eq!(Weather::try_lock(Some(Some(false))), Ok(true));
    assert_eq!(Weather::try_lock(Some(Some(true))), Err(WeatherError::AlreadyFetched));
    assert_eq!(Weather::try_lock(Some(None)), Err(WeatherError::AlreadyFetched));
}

#[test]
fn report_is_fetched_only_with_the_lock_written() {
    assert_eq!(Weather::fetch_if_needed(Ok(Ok(true))), FetchStep::Fetch);
    assert_eq!(Weather::fetch_if_needed(Ok(Ok(false))), FetchStep::Skip);
    assert_eq!(Weather::fetch_if_needed(Ok(Err(true))), FetchStep::Skip);
    assert_eq!(Weather::fetch_if_needed(Ok(Err(false))), FetchStep::Skip);
    assert_eq!(Weather::fetch_if_needed(Err(WeatherError::AlreadyFetched)), FetchStep::Skip);
}

#[test]
fn fetch_ends_with_a_report_or_a_failure() {
    let forecast = WeatherForecast {
        main: WeatherInfo { temp: 293, feels_like: 291, temp_min: 290, temp_max: 295, pressure: 1013, humidity: 40 },
        name: b"Berlin".to_vec(),
    };
    assert_eq!(Weather::fetch_n_parse(Ok(forecast.clone())), FetchEnd::Store(forecast.clone()));
    assert_eq!(
        Weather::fetch_n_parse(Err(WeatherError::HttpFetchingError)),
        FetchEnd::Fail(WeatherError::HttpFetchingError)
    );
    assert_eq!(KELVIN_OFFSET, 273);
    assert_eq!(forecast.main.celsius(), 20);
    assert_eq!(WeatherInfo { temp: 273, ..WeatherInfo::default() }.celsius(), 0);
    assert_eq!(WeatherForecast::default().name, Vec::<u8>::new());
}

#[test]
fn remote_request_succeeds_with_status_200_only() {
    assert_eq!(HTTP_OK, 200);
    assert_eq!(Weather::fetch_from_remote(RemoteReply::Answered(200)), Ok(()));
    assert_eq!(Weather::fetch_from_remote(RemoteReply::Answered(404)), Err(WeatherError::HttpFetchingError));
    assert_eq!(Weather::fetch_from_remote(RemoteReply::NotSent), Err(WeatherError::HttpFetchingError));
    assert_eq!(Weather::fetch_from_remote(RemoteReply::NoAnswer), Err(WeatherError::HttpFetchingError));
}

#[test]
fn submission_needs_a_signer_and_every_transaction_accepted() {
    assert_eq!(Weather::signed_submit_number(true, &[]), Ok(()));
    assert_eq!(Weather::signed_submit_number(true, &[true, true]), Ok(()));
    assert_eq!(
        Weather::signed_submit_number(true, &[true, false, true]),
        Err(WeatherError::SignedSubmitNumberError)
    );
    assert_eq!(Weather::signed_submit_number(false, &[]), Err(WeatherError::SignedSubmitNumberError));
    assert_eq!(Weather::signed_submit_number(false, &[true]), Err(WeatherError::SignedSubmitNumberError));
}

#[test]
fn origin_checks() {
    assert_eq!(ensure_signed::<Error>(Origin::Signed(4)), Ok(4));
    assert_eq!(ensure_signed::<Error>(Origin::Root), Err(DispatchError::BadOrigin));
    assert_eq!(ensure_signed::<Error>(Origin::Unsigned), Err(DispatchError::BadOrigin));
    assert_eq!(ensure_root::<Error>(Origin::Root), Ok(()));
    assert_eq!(ensure_root::<Error>(Origin::Signed(4)), Err(DispatchError::BadOrigin));
    assert_eq!(ensure_root::<Error>(Origin::Unsigned), Err(DispatchError::BadOrigin));
    assert_eq!(ensure_admitted::<Error>(Origin::Signed(4), true), Ok(4));
    assert_eq!(ensure_admitted::<Error>(Origin::Signed(4), false), Err(DispatchError::BadOrigin));
    assert_eq!(ensure_admitted::<Error>(Origin::Root, true), Err(DispatchError::BadOrigin));
}

#[test]
fn byte_strings_compare_and_copy() {
    assert!(same_bytes(b"", b""));
    assert!(same_bytes(b"abc", b"abc"));
    assert!(!same_bytes(b"abc", b"abd"));
    assert!(!same_bytes(b"abc", b"ab"));
    assert!(!same_bytes(b"", b"a"));
    assert_eq!(copy_bytes(b"0001"), b"0001".to_vec());
    assert_eq!(copy_bytes(b""), Vec::<u8>::new());
    let ids = vec![b"a".to_vec(), vec![], b"bc".to_vec()];
    assert_eq!(copy_ids(&ids), ids);
}
