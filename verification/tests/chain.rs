use state_validation::{
    Condition, FilterError, StateFilter, StateFilterThreeChainError, StateFilterTwoChainError,
    ValidAction, Validator,
};
use std::collections::HashMap;

#[derive(Hash, PartialEq, Eq, Clone, Copy, Debug)]
struct UserID(usize);

#[derive(Clone, PartialEq, Eq, Debug)]
struct User {
    id: UserID,
    username: String,
}

#[derive(Default)]
struct UserStorage {
    maps: HashMap<UserID, User>,
}

#[derive(Debug, PartialEq, Eq)]
struct AdminUser(User);

struct UserExists;

#[derive(Debug, PartialEq, Eq)]
struct UserDoesNotExistError;

impl FilterError for UserDoesNotExistError {
    fn reads(&self) -> String {
        self.message()
    }
    fn message(&self) -> String {
        "user does not exist".to_string()
    }
}

impl StateFilter<UserStorage, UserID> for UserExists {
    type ValidOutput = User;
    type Error = UserDoesNotExistError;
    fn verdict(state: UserStorage, user_id: UserID) -> Result<User, UserDoesNotExistError> {
        Self::filter(&state, user_id)
    }
    fn filter(state: &UserStorage, user_id: UserID) -> Result<User, UserDoesNotExistError> {
        if let Some(user) = state.maps.get(&user_id) {
            Ok(user.clone())
        } else {
            Err(UserDoesNotExistError)
        }
    }
}

struct UserIsAdmin;

#[derive(Debug, PartialEq, Eq)]
struct UserIsNotAdminError;

impl FilterError for UserIsNotAdminError {
    fn reads(&self) -> String {
        self.message()
    }
    fn message(&self) -> String {
        "user is not an admin".to_string()
    }
}

impl<State> StateFilter<State, User> for UserIsAdmin {
    type ValidOutput = AdminUser;
    type Error = UserIsNotAdminError;
    fn verdict(state: State, user: User) -> Result<AdminUser, UserIsNotAdminError> {
        Self::filter(&state, user)
    }
    fn filter(_state: &State, user: User) -> Result<AdminUser, UserIsNotAdminError> {
        if user.username == "ADMIN" {
            Ok(AdminUser(user))
        } else {
            Err(UserIsNotAdminError)
        }
    }
}

type AdminChain = (Condition<UserID, UserExists>, Condition<User, UserIsAdmin>);

fn storage_with(name: &str) -> UserStorage {
    let mut storage = UserStorage::default();
    storage.maps.insert(UserID(0), User { id: UserID(0), username: name.to_string() });
    storage
}

#[test]
fn admin_passes_both_steps() {
    let storage = storage_with("ADMIN");
    let output = <AdminChain as StateFilter<UserStorage, UserID>>::filter(&storage, UserID(0));
    match output {
        Ok(admin) => assert_eq!(
            admin,
            AdminUser(User { id: UserID(0), username: "ADMIN".to_string() })
        ),
        Err(_) => panic!("the chain refused an admin"),
    }
}

#[test]
fn absent_user_fails_at_step_zero() {
    let storage = storage_with("ADMIN");
    let output = <AdminChain as StateFilter<UserStorage, UserID>>::filter(&storage, UserID(99));
    match output {
        Err(StateFilterTwoChainError::Filter0(error)) => {
            assert_eq!(error, UserDoesNotExistError);
        }
        _ => panic!("expected the error of step 0"),
    }
}

#[test]
fn guest_fails_at_step_one() {
    let storage = storage_with("GUEST");
    let output = <AdminChain as StateFilter<UserStorage, UserID>>::filter(&storage, UserID(0));
    match output {
        Err(StateFilterTwoChainError::Filter1(error)) => {
            assert_eq!(error, UserIsNotAdminError);
        }
        _ => panic!("expected the error of step 1"),
    }
}

#[test]
fn chain_error_reads_as_the_failed_step() {
    let storage = storage_with("GUEST");
    let absent = <AdminChain as StateFilter<UserStorage, UserID>>::filter(&storage, UserID(99));
    match absent {
        Err(error) => assert_eq!(error.message(), "user does not exist"),
        Ok(_) => panic!("an absent user passed"),
    }
    let guest = <AdminChain as StateFilter<UserStorage, UserID>>::filter(&storage, UserID(0));
    match guest {
        Err(error) => assert_eq!(error.message(), "user is not an admin"),
        Ok(_) => panic!("a guest passed"),
    }
}

#[test]
fn single_condition_keeps_the_filter_error() {
    let storage = storage_with("ADMIN");
    let found = <Condition<UserID, UserExists> as StateFilter<UserStorage, UserID>>::filter(
        &storage,
        UserID(0),
    );
    assert_eq!(found, Ok(User { id: UserID(0), username: "ADMIN".to_string() }));
    let missing = <Condition<UserID, UserExists> as StateFilter<UserStorage, UserID>>::filter(
        &storage,
        UserID(7),
    );
    assert_eq!(missing, Err(UserDoesNotExistError));
}

struct AlwaysFails;

#[derive(Debug, PartialEq, Eq)]
struct Refused;

impl FilterError for Refused {
    fn reads(&self) -> String {
        self.message()
    }
    fn message(&self) -> String {
        "refused".to_string()
    }
}

impl<State> StateFilter<State, u32> for AlwaysFails {
    type ValidOutput = u32;
    type Error = Refused;
    fn verdict(state: State, value: u32) -> Result<u32, Refused> {
        Self::filter(&state, value)
    }
    fn filter(_state: &State, _value: u32) -> Result<u32, Refused> {
        Err(Refused)
    }
}

struct MustNotRun;

impl<State> StateFilter<State, u32> for MustNotRun {
    type ValidOutput = u32;
    type Error = Refused;
    fn verdict(state: State, value: u32) -> Result<u32, Refused> {
        Self::filter(&state, value)
    }
    fn filter(_state: &State, _value: u32) -> Result<u32, Refused> {
        panic!("a step after the failed one was asked")
    }
}

struct AddOne;

impl<State> StateFilter<State, u32> for AddOne {
    type ValidOutput = u32;
    type Error = Refused;
    fn verdict(state: State, value: u32) -> Result<u32, Refused> {
        Self::filter(&state, value)
    }
    fn filter(_state: &State, value: u32) -> Result<u32, Refused> {
        Ok(value + 1)
    }
}

#[test]
fn chain_stops_at_the_first_failure() {
    type Chain = (Condition<u32, AddOne>, Condition<u32, AlwaysFails>, Condition<u32, MustNotRun>);
    let output = <Chain as StateFilter<(), u32>>::filter(&(), 5);
    match output {
        Err(StateFilterThreeChainError::Filter1(error)) => assert_eq!(error, Refused),
        _ => panic!("expected the error of step 1"),
    }
}

#[test]
fn later_steps_see_earlier_outputs() {
    type Chain = (Condition<u32, AddOne>, Condition<u32, AddOne>, Condition<u32, AddOne>);
    let output = <Chain as StateFilter<(), u32>>::filter(&(), 5);
    match output {
        Ok(value) => assert_eq!(value, 8),
        Err(_) => panic!("a passing chain failed"),
    }
}

struct RemoveAdmin;

impl ValidAction<UserStorage, UserID> for RemoveAdmin {
    type Filter = AdminChain;
    type Output = UserStorage;
    fn outcome(self, state: UserStorage, admin_user: AdminUser) -> UserStorage {
        self.with_valid_input(state, admin_user)
    }
    fn with_valid_input(self, mut state: UserStorage, admin_user: AdminUser) -> UserStorage {
        let _ = state.maps.remove(&admin_user.0.id).unwrap();
        state
    }
}

#[test]
fn validator_runs_the_action_on_the_validated_state() {
    let validator: Validator<UserStorage, UserID, AdminChain> =
        match Validator::try_new(storage_with("ADMIN"), UserID(0)) {
            Ok(validator) => validator,
            Err(_) => panic!("admin user did not exist"),
        };
    assert_eq!(validator.valid_output().0.username, "ADMIN");
    let storage = validator.execute(RemoveAdmin);
    assert!(storage.maps.is_empty());
}

#[test]
fn no_validator_without_a_passing_filter() {
    let refused: Result<Validator<UserStorage, UserID, AdminChain>, _> =
        Validator::try_new(storage_with("GUEST"), UserID(0));
    match refused {
        Err(StateFilterTwoChainError::Filter1(error)) => assert_eq!(error, UserIsNotAdminError),
        _ => panic!("a guest was validated as admin"),
    }
}
